//! Parsing and canonical rendering of DTrace-style probe specifiers: four
//! optional name components (provider, module, function, action) separated by
//! exactly three colons, as in `syscall::read:entry` or `perl*:::*-entry`.

pub mod err;
pub mod specifier;

pub use err::Error;
pub use specifier::ProbeSpecifier;
