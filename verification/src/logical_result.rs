//! A logical result: success or failure as a plain value.

use vstd::prelude::*;

verus! {

/// A logical result of success or failure, as the native interface
/// encodes it: any non-zero value is success.
#[derive(Clone, Copy, Debug, PartialEq, Eq, Structural)]
pub struct LogicalResult {
    /// The raw encoded value.
    pub value: u64,
}

impl LogicalResult {
    /// A success result.
    pub fn success() -> (r: LogicalResult)
        ensures
            r.value == 1,
    {
        LogicalResult { value: 1 }
    }

    /// A failure result.
    pub fn failure() -> (r: LogicalResult)
        ensures
            r.value == 0,
    {
        LogicalResult { value: 0 }
    }

    /// True when the result is success.
    pub fn is_success(&self) -> (r: bool)
        ensures
            r == (self.value != 0),
    {
        self.value != 0
    }

    /// True when the result is failure.
    pub fn is_failure(&self) -> (r: bool)
        ensures
            r == (self.value == 0),
    {
        self.value == 0
    }
}

} // verus!
