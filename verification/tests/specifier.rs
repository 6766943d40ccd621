use dparse::Error;
use dparse::ProbeSpecifier;

#[test]
fn empty_name() {
    let name = ProbeSpecifier::parse(":::").expect("parse error");

    assert!(name.provider.is_none());
    assert!(name.module.is_none());
    assert!(name.function.is_none());
    assert!(name.action.is_none());
}

#[test]
fn full_name() {
    let name = ProbeSpecifier::parse("foo:bar:baz:wibble").expect("parse error");

    assert_eq!(name.provider.expect("provider name"), "foo");
    assert_eq!(name.module.expect("module name"), "bar");
    assert_eq!(name.function.expect("function name"), "baz");
    assert_eq!(name.action.expect("action name"), "wibble");
}

#[test]
fn provider_only() {
    let name = ProbeSpecifier::parse("foo:::").expect("parse error");

    assert_eq!(name.provider.expect("provider name"), "foo");
    assert!(name.module.is_none());
    assert!(name.function.is_none());
    assert!(name.action.is_none());
}

#[test]
fn wildcards() {
    let name = ProbeSpecifier::parse("perl*:::*-entry").expect("parse error");

    assert_eq!(name.provider.expect("provider name"), "perl*");
    assert!(name.module.is_none());
    assert!(name.function.is_none());
    assert_eq!(name.action.expect("action name"), "*-entry");
}

#[test]
fn render_all_empty() {
    let name = ProbeSpecifier::parse(":::").expect("parse error");
    assert_eq!(name.render(), ":::");
}

#[test]
fn render_full_round_trip() {
    let name = ProbeSpecifier::parse("foo:bar:baz:wibble").expect("parse error");
    assert_eq!(name.render(), "foo:bar:baz:wibble");
}

#[test]
fn render_partial_round_trip() {
    let name = ProbeSpecifier::parse("p-1:m_2::a*9").expect("parse error");
    assert_eq!(name.render(), "p-1:m_2::a*9");

    let name = ProbeSpecifier::parse("foo:::").expect("parse error");
    assert_eq!(name.render(), "foo:::");
}

#[test]
fn reparse_yields_equal_specifier() {
    let first = ProbeSpecifier::parse("perl*:::*-entry").expect("parse error");
    let again = ProbeSpecifier::parse(&first.render()).expect("parse error");

    assert_eq!(first.provider, again.provider);
    assert_eq!(first.module, again.module);
    assert_eq!(first.function, again.function);
    assert_eq!(first.action, again.action);
}

#[test]
fn too_few_separators() {
    assert!(matches!(
        ProbeSpecifier::parse("foo"),
        Err(Error::Incomplete { needed: 1 })
    ));
    assert!(matches!(
        ProbeSpecifier::parse("foo:bar"),
        Err(Error::Incomplete { needed: 1 })
    ));
    assert!(matches!(
        ProbeSpecifier::parse(""),
        Err(Error::Incomplete { needed: 1 })
    ));
}

#[test]
fn stray_space_rejected() {
    assert!(matches!(
        ProbeSpecifier::parse("foo bar:::"),
        Err(Error::Parsing { position: 3 })
    ));
}

#[test]
fn fourth_separator_rejected() {
    assert!(matches!(
        ProbeSpecifier::parse("::::"),
        Err(Error::Parsing { position: 3 })
    ));
    assert!(matches!(
        ProbeSpecifier::parse("a:b:c:d:e"),
        Err(Error::Parsing { position: 7 })
    ));
}

#[test]
fn trailing_name_chars_absorbed() {
    let name = ProbeSpecifier::parse("a:b:c:d-e*_9").expect("parse error");
    assert_eq!(name.action.expect("action name"), "d-e*_9");
}

#[test]
fn io_error_carries_message() {
    let err = Error::Io {
        message: String::from("no such file"),
    };
    assert!(matches!(err, Error::Io { message } if message == "no such file"));
}
