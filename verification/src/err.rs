//! The failure taxonomy shared by the probe-specifier parser and the tools
//! that feed it text.

use vstd::prelude::*;

verus! {

/// The ways obtaining and parsing a probe specifier can fail.
///
/// `Incomplete` and `Parsing` are produced by the parser itself. `Io` stands
/// for a failure to obtain the input text at all (a missing file, a denied
/// read); the parser never produces it, but the surrounding tool reports such
/// failures through the same result type.
#[derive(Debug)]
pub enum Error {
    /// The input ended before the grammar could complete: fewer than three
    /// separators were seen. `needed` is a hint of how many more characters
    /// would be required before parsing could make progress.
    Incomplete { needed: usize },
    /// The underlying text could not be obtained; carries a description of
    /// the failure.
    Io { message: String },
    /// The input can never satisfy the grammar: `position` is the index of
    /// the first character at which it goes wrong (a character outside the
    /// allowed name set, or a fourth separator).
    Parsing { position: usize },
}

} // verus!
