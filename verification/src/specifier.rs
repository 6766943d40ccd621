//! The probe-specifier grammar: parsing a colon-separated four-component
//! probe name and rendering it back to canonical text.

use vstd::prelude::*;
use vstd::string::StrSliceExecFns;
use vstd::string::StringExecFns;

use crate::err::Error;

verus! {

/// A character that may appear in a name component: ASCII letters, digits,
/// `-`, `_` and the wildcard `*`. The separator `:` is never a name
/// character.
pub open spec fn is_name_char(c: char) -> bool {
    ('A' <= c && c <= 'Z') || ('a' <= c && c <= 'z') || ('0' <= c && c <= '9') || c == '-' || c
        == '_' || c == '*'
}

/// Every character of `s` is a legal name character.
pub open spec fn name_chars_only(s: Seq<char>) -> bool {
    forall|i: int| 0 <= i < s.len() ==> is_name_char(#[trigger] s[i])
}

/// A component is either absent or a non-empty run of name characters.
pub open spec fn wf_component(c: Option<Seq<char>>) -> bool {
    match c {
        Option::None => true,
        Option::Some(s) => s.len() > 0 && name_chars_only(s),
    }
}

/// The text a component contributes to the rendered specifier: an absent
/// component contributes nothing.
pub open spec fn component_text(c: Option<Seq<char>>) -> Seq<char> {
    match c {
        Option::None => Seq::empty(),
        Option::Some(s) => s,
    }
}

/// The component a run of name characters stands for: an empty run is an
/// absent component.
pub open spec fn component_of(s: Seq<char>) -> Option<Seq<char>> {
    if s.len() == 0 {
        Option::None
    } else {
        Option::Some(s)
    }
}

/// The mathematical shape of a probe specifier: four optional runs of name
/// characters.
pub ghost struct ProbeSpecView {
    pub provider: Option<Seq<char>>,
    pub module: Option<Seq<char>>,
    pub function: Option<Seq<char>>,
    pub action: Option<Seq<char>>,
}

/// All four components of `t` are well formed.
pub open spec fn wf(t: ProbeSpecView) -> bool {
    &&& wf_component(t.provider)
    &&& wf_component(t.module)
    &&& wf_component(t.function)
    &&& wf_component(t.action)
}

/// The canonical text of a specifier: the four components joined by `:`,
/// an absent component standing as an empty slot. Always exactly three
/// separators.
pub open spec fn rendered(t: ProbeSpecView) -> Seq<char> {
    component_text(t.provider) + seq![':'] + component_text(t.module) + seq![':'] + component_text(
        t.function,
    ) + seq![':'] + component_text(t.action)
}

/// The number of `:` separators in `s`.
pub open spec fn colon_count(s: Seq<char>) -> nat
    decreases s.len(),
{
    if s.len() == 0 {
        0
    } else {
        colon_count(s.drop_last()) + if s.last() == ':' {
            1nat
        } else {
            0nat
        }
    }
}

/// Every character of `s` could belong to some specifier: a name character
/// or a separator.
pub open spec fn specifier_chars_only(s: Seq<char>) -> bool {
    forall|i: int| 0 <= i < s.len() ==> is_name_char(#[trigger] s[i]) || s[i] == ':'
}

/// The strings the grammar accepts: exactly three separators, name
/// characters everywhere else.
pub open spec fn accepts(s: Seq<char>) -> bool {
    specifier_chars_only(s) && colon_count(s) == 3
}

/// The grammar fails for certain at position `i` of `s`: the character there
/// is neither a name character nor a separator, or it is a fourth separator.
pub open spec fn rejected_at(s: Seq<char>, i: int) -> bool {
    !is_name_char(s[i]) && !(s[i] == ':' && colon_count(s.take(i)) < 3)
}

/// A DTrace probe name of four optional components separated by colons:
/// provider, module, function and action. An absent component was an empty
/// slot in the input.
#[derive(Debug)]
pub struct ProbeSpecifier {
    pub provider: Option<String>,
    pub module: Option<String>,
    pub function: Option<String>,
    pub action: Option<String>,
}

impl View for ProbeSpecifier {
    type V = ProbeSpecView;

    open spec fn view(&self) -> ProbeSpecView {
        ProbeSpecView {
            provider: self.provider.deep_view(),
            module: self.module.deep_view(),
            function: self.function.deep_view(),
            action: self.action.deep_view(),
        }
    }
}

/// Whether `c` is a legal name character.
fn name_char(c: char) -> (r: bool)
    ensures
        r == is_name_char(c),
{
    ('A' <= c && c <= 'Z') || ('a' <= c && c <= 'z') || ('0' <= c && c <= '9') || c == '-' || c
        == '_' || c == '*'
}

/// Extending a prefix by one character raises the separator count exactly
/// when that character is a separator.
proof fn lemma_count_step(s: Seq<char>, k: int)
    requires
        0 <= k < s.len(),
    ensures
        colon_count(s.take(k + 1)) == colon_count(s.take(k)) + if s[k] == ':' {
            1nat
        } else {
            0nat
        },
{
    assert(s.take(k + 1).drop_last() =~= s.take(k));
    assert(s.take(k + 1).last() == s[k]);
}

/// The separator count never drops as the prefix grows.
proof fn lemma_count_mono(s: Seq<char>, i: int, j: int)
    requires
        0 <= i <= j <= s.len(),
    ensures
        colon_count(s.take(i)) <= colon_count(s.take(j)),
    decreases j - i,
{
    if i < j {
        lemma_count_mono(s, i, j - 1);
        lemma_count_step(s, j - 1);
    }
}

/// Between two prefixes with the same separator count no separator occurs.
proof fn lemma_count_flat(s: Seq<char>, i: int, j: int)
    requires
        0 <= i <= j <= s.len(),
        colon_count(s.take(i)) == colon_count(s.take(j)),
    ensures
        forall|k: int| i <= k < j ==> s[k] != ':',
{
    assert forall|k: int| i <= k < j implies s[k] != ':' by {
        if s[k] == ':' {
            lemma_count_step(s, k);
            lemma_count_mono(s, i, k);
            lemma_count_mono(s, k + 1, j);
        }
    }
}

/// A stretch of the input that holds no separator, in a string where the
/// grammar has not failed anywhere, is a well-formed run of name characters.
proof fn lemma_segment_name_chars(s: Seq<char>, lo: int, hi: int)
    requires
        0 <= lo <= hi <= s.len(),
        forall|j: int| lo <= j < hi ==> #[trigger] s[j] != ':',
        forall|j: int| 0 <= j < s.len() ==> !rejected_at(s, j),
    ensures
        name_chars_only(s.subrange(lo, hi)),
{
    assert forall|k: int| 0 <= k < s.subrange(lo, hi).len() implies is_name_char(
        #[trigger] s.subrange(lo, hi)[k],
    ) by {
        assert(s.subrange(lo, hi)[k] == s[lo + k]);
        assert(!rejected_at(s, lo + k));
        assert(s[lo + k] != ':');
    }
}

impl ProbeSpecifier {
    /// Parse a probe specifier from a colon-separated string.
    ///
    /// The whole input must be consumed: exactly three separators, name
    /// characters everywhere else. On success the four runs between the
    /// separators become the components, an empty run becoming an absent
    /// component, so that the result renders back to exactly the input. An
    /// input that ends before its third separator is `Incomplete`; one with
    /// a character that can never fit the grammar is `Parsing`, at the first
    /// such position. `Io` is never produced here.
    #[verifier::rlimit(50)]
    pub fn parse(s: &str) -> (r: Result<ProbeSpecifier, Error>)
        ensures
            r is Ok <==> accepts(s@),
            match r {
                Result::Ok(t) => wf(t@) && rendered(t@) == s@,
                Result::Err(e) => match e {
                    Error::Incomplete { needed } => needed == 1 && specifier_chars_only(s@)
                        && colon_count(s@) < 3,
                    Error::Parsing { position } => position < s@.len() && rejected_at(
                        s@,
                        position as int,
                    ) && forall|j: int| 0 <= j < position ==> !rejected_at(s@, j),
                    Error::Io { .. } => false,
                },
            },
    {
        let n: usize = s.unicode_len();
        let mut colons: Vec<usize> = Vec::new();
        let mut i: usize = 0;
        while i < n
            invariant
                s@.len() == n as nat,
                i <= n,
                colons@.len() <= 3,
                colons@.len() == colon_count(s@.take(i as int)),
                forall|k: int| 0 <= k < colons@.len() ==> (#[trigger] colons@[k]) < i,
                forall|k: int| 0 <= k < colons@.len() ==> s@[(#[trigger] colons@[k]) as int] == ':',
                forall|k: int|
                    0 <= k < colons@.len() ==> colon_count(s@.take((#[trigger] colons@[k]) as int))
                        == k,
                forall|k1: int, k2: int|
                    0 <= k1 < k2 < colons@.len() ==> colons@[k1] < colons@[k2],
                forall|j: int| 0 <= j < i ==> !rejected_at(s@, j),
            decreases n - i,
        {
            let c = s.get_char(i);
            if c == ':' {
                if colons.len() == 3 {
                    proof {
                        lemma_count_step(s@, i as int);
                        lemma_count_mono(s@, i as int + 1, n as int);
                        assert(s@.take(n as int) =~= s@);
                    }
                    return Result::Err(Error::Parsing { position: i });
                }
                proof {
                    lemma_count_step(s@, i as int);
                }
                colons.push(i);
            } else {
                if !name_char(c) {
                    return Result::Err(Error::Parsing { position: i });
                }
                proof {
                    lemma_count_step(s@, i as int);
                }
            }
            i = i + 1;
        }
        proof {
            assert(s@.take(n as int) =~= s@);
            assert forall|j: int| 0 <= j < s@.len() implies is_name_char(#[trigger] s@[j]) || s@[j]
                == ':' by {
                assert(!rejected_at(s@, j));
            }
        }
        if colons.len() < 3 {
            return Result::Err(Error::Incomplete { needed: 1 });
        }
        let c0 = colons[0];
        let c1 = colons[1];
        let c2 = colons[2];
        proof {
            lemma_count_step(s@, c0 as int);
            lemma_count_step(s@, c1 as int);
            lemma_count_step(s@, c2 as int);
            lemma_count_flat(s@, 0, c0 as int);
            lemma_count_flat(s@, c0 as int + 1, c1 as int);
            lemma_count_flat(s@, c1 as int + 1, c2 as int);
            lemma_count_flat(s@, c2 as int + 1, n as int);
            lemma_segment_name_chars(s@, 0, c0 as int);
            lemma_segment_name_chars(s@, c0 as int + 1, c1 as int);
            lemma_segment_name_chars(s@, c1 as int + 1, c2 as int);
            lemma_segment_name_chars(s@, c2 as int + 1, n as int);
        }
        let provider = component(s, 0, c0);
        let module = component(s, c0 + 1, c1);
        let function = component(s, c1 + 1, c2);
        let action = component(s, c2 + 1, n);
        let result = ProbeSpecifier { provider, module, function, action };
        proof {
            let ghost sp = s@.subrange(0, c0 as int);
            let ghost sm = s@.subrange(c0 as int + 1, c1 as int);
            let ghost sf = s@.subrange(c1 as int + 1, c2 as int);
            let ghost sa = s@.subrange(c2 as int + 1, n as int);
            assert(component_text(result@.provider) =~= sp);
            assert(component_text(result@.module) =~= sm);
            assert(component_text(result@.function) =~= sf);
            assert(component_text(result@.action) =~= sa);
            assert(rendered(result@).len() == n as int);
            assert forall|j: int| 0 <= j < n as int implies rendered(result@)[j] == s@[j] by {
                if j < c0 as int {
                    assert(rendered(result@)[j] == sp[j]);
                } else if j == c0 as int {
                    assert(rendered(result@)[j] == ':');
                } else if j < c1 as int {
                    assert(rendered(result@)[j] == sm[j - (c0 as int + 1)]);
                } else if j == c1 as int {
                    assert(rendered(result@)[j] == ':');
                } else if j < c2 as int {
                    assert(rendered(result@)[j] == sf[j - (c1 as int + 1)]);
                } else if j == c2 as int {
                    assert(rendered(result@)[j] == ':');
                } else {
                    assert(rendered(result@)[j] == sa[j - (c2 as int + 1)]);
                }
            }
            assert(rendered(result@) =~= s@);
        }
        Result::Ok(result)
    }
}

/// Separator counts add over concatenation.
proof fn lemma_count_concat(a: Seq<char>, b: Seq<char>)
    ensures
        colon_count(a + b) == colon_count(a) + colon_count(b),
    decreases b.len(),
{
    if b.len() == 0 {
        assert(a + b =~= a);
    } else {
        lemma_count_concat(a, b.drop_last());
        assert((a + b).drop_last() =~= a + b.drop_last());
        assert((a + b).last() == b.last());
    }
}

/// A run of name characters holds no separator.
proof fn lemma_name_run_no_colon(s: Seq<char>)
    requires
        name_chars_only(s),
    ensures
        colon_count(s) == 0,
    decreases s.len(),
{
    if s.len() > 0 {
        assert(name_chars_only(s.drop_last())) by {
            assert forall|i: int| 0 <= i < s.drop_last().len() implies is_name_char(
                #[trigger] s.drop_last()[i],
            ) by {
                assert(s.drop_last()[i] == s[i]);
            }
        }
        lemma_name_run_no_colon(s.drop_last());
        assert(is_name_char(s[s.len() - 1]));
        assert(s.last() != ':');
    }
}

/// Law: a well-formed specifier's canonical text is accepted by the
/// grammar: it has exactly three separators and name characters everywhere
/// else.
pub proof fn lemma_rendered_accepted(t: ProbeSpecView)
    requires
        wf(t),
    ensures
        accepts(rendered(t)),
{
    let p = component_text(t.provider);
    let m = component_text(t.module);
    let f = component_text(t.function);
    let a = component_text(t.action);
    let c = seq![':'];
    assert(name_chars_only(p) && name_chars_only(m) && name_chars_only(f) && name_chars_only(a));
    assert(c.last() == ':');
    assert(c.drop_last() =~= Seq::<char>::empty());
    assert(colon_count(Seq::<char>::empty()) == 0);
    assert(colon_count(c) == 1);
    lemma_name_run_no_colon(p);
    lemma_name_run_no_colon(m);
    lemma_name_run_no_colon(f);
    lemma_name_run_no_colon(a);
    lemma_count_concat(p, c);
    lemma_count_concat(p + c, m);
    lemma_count_concat(p + c + m, c);
    lemma_count_concat(p + c + m + c, f);
    lemma_count_concat(p + c + m + c + f, c);
    lemma_count_concat(p + c + m + c + f + c, a);
    assert(colon_count(rendered(t)) == 3);
    assert forall|i: int| 0 <= i < rendered(t).len() implies is_name_char(
        #[trigger] rendered(t)[i],
    ) || rendered(t)[i] == ':' by {
        if i < p.len() {
            assert(rendered(t)[i] == p[i]);
        } else if i == p.len() {
            assert(rendered(t)[i] == ':');
        } else if i < p.len() + 1 + m.len() {
            assert(rendered(t)[i] == m[i - p.len() - 1]);
        } else if i == p.len() + 1 + m.len() {
            assert(rendered(t)[i] == ':');
        } else if i < p.len() + 2 + m.len() + f.len() {
            assert(rendered(t)[i] == f[i - p.len() - m.len() - 2]);
        } else if i == p.len() + 2 + m.len() + f.len() {
            assert(rendered(t)[i] == ':');
        } else {
            assert(rendered(t)[i] == a[i - p.len() - m.len() - f.len() - 3]);
        }
    }
}

/// Two equal specifier texts that each start with a run of name characters
/// up to a separator split identically at that separator.
proof fn lemma_split_at_separator(u1: Seq<char>, v1: Seq<char>, u2: Seq<char>, v2: Seq<char>)
    requires
        name_chars_only(u1),
        name_chars_only(u2),
        u1 + seq![':'] + v1 == u2 + seq![':'] + v2,
    ensures
        u1 == u2,
        v1 == v2,
{
    let s1 = u1 + seq![':'] + v1;
    let s2 = u2 + seq![':'] + v2;
    if u1.len() < u2.len() {
        assert(s1[u1.len() as int] == ':');
        assert(s2[u1.len() as int] == u2[u1.len() as int]);
        assert(is_name_char(u2[u1.len() as int]));
        assert(false);
    }
    if u2.len() < u1.len() {
        assert(s2[u2.len() as int] == ':');
        assert(s1[u2.len() as int] == u1[u2.len() as int]);
        assert(is_name_char(u1[u2.len() as int]));
        assert(false);
    }
    assert(u1.len() == u2.len());
    assert(s1.len() == u1.len() + 1 + v1.len());
    assert(s2.len() == u2.len() + 1 + v2.len());
    assert(v1.len() == v2.len());
    assert(u1 =~= u2) by {
        assert forall|i: int| 0 <= i < u1.len() implies u1[i] == u2[i] by {
            assert(s1[i] == u1[i]);
            assert(s2[i] == u2[i]);
        }
    }
    assert(v1 =~= v2) by {
        assert forall|i: int| 0 <= i < v1.len() implies v1[i] == v2[i] by {
            assert(s1[u1.len() + 1 + i] == v1[i]);
            assert(s2[u2.len() + 1 + i] == v2[i]);
        }
    }
}

/// Distinct well-formed components have distinct texts: absence and the
/// empty text stand for each other exactly.
proof fn lemma_component_text_injective(c1: Option<Seq<char>>, c2: Option<Seq<char>>)
    requires
        wf_component(c1),
        wf_component(c2),
        component_text(c1) == component_text(c2),
    ensures
        c1 == c2,
{
}

/// Law: the canonical text determines the specifier. Two well-formed
/// specifiers with the same rendering are equal component-wise; with the
/// contracts of `parse` and `render`, re-parsing a rendered specifier can
/// only yield that specifier again.
pub proof fn lemma_rendered_injective(t1: ProbeSpecView, t2: ProbeSpecView)
    requires
        wf(t1),
        wf(t2),
        rendered(t1) == rendered(t2),
    ensures
        t1 == t2,
{
    let p1 = component_text(t1.provider);
    let m1 = component_text(t1.module);
    let f1 = component_text(t1.function);
    let a1 = component_text(t1.action);
    let p2 = component_text(t2.provider);
    let m2 = component_text(t2.module);
    let f2 = component_text(t2.function);
    let a2 = component_text(t2.action);
    let c = seq![':'];
    let r1 = m1 + c + f1 + c + a1;
    let r2 = m2 + c + f2 + c + a2;
    assert(rendered(t1) =~= p1 + c + r1);
    assert(rendered(t2) =~= p2 + c + r2);
    lemma_split_at_separator(p1, r1, p2, r2);
    let q1 = f1 + c + a1;
    let q2 = f2 + c + a2;
    assert(r1 =~= m1 + c + q1);
    assert(r2 =~= m2 + c + q2);
    lemma_split_at_separator(m1, q1, m2, q2);
    lemma_split_at_separator(f1, a1, f2, a2);
    lemma_component_text_injective(t1.provider, t2.provider);
    lemma_component_text_injective(t1.module, t2.module);
    lemma_component_text_injective(t1.function, t2.function);
    lemma_component_text_injective(t1.action, t2.action);
}

/// The specifier whose components are the four given runs of name
/// characters, an empty run standing for an absent component.
pub open spec fn specifier_of(p: Seq<char>, m: Seq<char>, f: Seq<char>, a: Seq<char>) -> ProbeSpecView {
    ProbeSpecView {
        provider: component_of(p),
        module: component_of(m),
        function: component_of(f),
        action: component_of(a),
    }
}

/// Law: joining four (possibly empty) runs of name characters with `:`
/// yields a text the grammar accepts, and the specifier built from exactly
/// those runs is well formed and renders to that text. With the contracts
/// of `parse` and `render` and with `lemma_rendered_injective`, rendering
/// the parse of such a joined string returns the string unchanged.
pub proof fn lemma_canonical_round_trip(p: Seq<char>, m: Seq<char>, f: Seq<char>, a: Seq<char>)
    requires
        name_chars_only(p),
        name_chars_only(m),
        name_chars_only(f),
        name_chars_only(a),
    ensures
        wf(specifier_of(p, m, f, a)),
        rendered(specifier_of(p, m, f, a)) == p + seq![':'] + m + seq![':'] + f + seq![':'] + a,
        accepts(p + seq![':'] + m + seq![':'] + f + seq![':'] + a),
{
    let t = specifier_of(p, m, f, a);
    assert(component_text(component_of(p)) =~= p);
    assert(component_text(component_of(m)) =~= m);
    assert(component_text(component_of(f)) =~= f);
    assert(component_text(component_of(a)) =~= a);
    assert(rendered(t) =~= p + seq![':'] + m + seq![':'] + f + seq![':'] + a);
    lemma_rendered_accepted(t);
}

impl ProbeSpecifier {
    /// Render the specifier back to canonical text: the four components
    /// joined by `:`, an absent component standing as an empty slot, always
    /// exactly three separators.
    pub fn render(&self) -> (r: String)
        ensures
            r@ == rendered(self@),
    {
        proof {
            reveal_strlit(":");
            assert(":"@ =~= seq![':']);
        }
        let mut out = String::new();
        push_component(&mut out, &self.provider);
        out.append(":");
        push_component(&mut out, &self.module);
        out.append(":");
        push_component(&mut out, &self.function);
        out.append(":");
        push_component(&mut out, &self.action);
        proof {
            assert(out@ =~= rendered(self@));
        }
        out
    }
}

/// Append a component's text to the output being built.
fn push_component(out: &mut String, c: &Option<String>)
    ensures
        final(out)@ == old(out)@ + component_text(c.deep_view()),
{
    match c {
        Option::Some(name) => {
            out.append(name.as_str());
        },
        Option::None => {
            proof {
                assert(out@ + component_text(c.deep_view()) =~= out@);
            }
        },
    }
}

/// The run of input between two positions, as a component: an empty range is
/// an absent component.
fn component(s: &str, lo: usize, hi: usize) -> (r: Option<String>)
    requires
        lo <= hi <= s@.len(),
    ensures
        r.deep_view() == component_of(s@.subrange(lo as int, hi as int)),
{
    if lo == hi {
        proof {
            assert(s@.subrange(lo as int, hi as int) =~= Seq::<char>::empty());
        }
        Option::None
    } else {
        Option::Some(String::from_str(s.substring_char(lo, hi)))
    }
}

} // verus!
