use vstd::prelude::*;

verus! {

/// The closed set of failures reported by the call interface.
#[derive(Clone, Copy, Debug, PartialEq, Eq, Structural)]
pub enum ErrorCode {
    /// Generic failure.
    Fail,
    /// The driver is busy with another operation.
    Busy,
    /// An argument was invalid.
    Invalid,
    /// A length or size was invalid.
    Size,
    /// The operation is not supported.
    NoSupport,
    /// The driver is not present.
    NoDevice,
}

} // verus!
