//! Source locations attached to operations.

use vstd::prelude::*;

verus! {

/// A source location.
///
/// Locations are value-like and carry interned string handles rather
/// than owned text, so they are freely copyable.
#[derive(Clone, Copy, Debug, PartialEq, Eq, Structural)]
pub enum Location {
    /// An unknown location.
    Unknown,
    /// A location named after an interned string, such as a symbol.
    Named { name: u64 },
    /// A file, line and column position; the file name is an interned
    /// string handle.
    FileLineCol { filename: u64, line: u64, column: u64 },
}

impl Location {
    /// The unknown location.
    ///
    /// The context parameter mirrors the rule that every factory takes
    /// its owning context; an unknown location needs nothing from it.
    pub fn unknown(_context: &crate::context::Context) -> (r: Location)
        ensures
            r == Location::Unknown,
    {
        Location::Unknown
    }
}

} // verus!
