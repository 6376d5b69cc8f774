use vstd::prelude::*;

verus! {

/// The family of platforms whose path conventions the escaper and the URI
/// decoder follow. It is chosen by the caller, once, rather than compiled in.
#[derive(Clone, Copy, Debug, PartialEq, Eq, Structural)]
pub enum Platform {
    /// Paths use `\` as separator and may hold a drive such as `C:`.
    Windows,
    /// Paths use `/` as separator.
    Unix,
}

} // verus!
