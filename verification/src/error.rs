//! The ways in which an operation can fail.

use vstd::prelude::*;

verus! {

/// Why an operation gave up. An operation that fails leaves nothing half done
/// for the caller to repair: the error is final.
#[derive(Debug, Clone, Copy, PartialEq, Eq, Structural)]
pub enum Error {
    /// A parameter is outside the range the operation accepts.
    InvalidParameter,
    /// A frame buffer's length disagrees with the frame's declared dimensions.
    DimensionMismatch,
    /// The container codec could not decode or encode.
    CodecFailure,
    /// A file could not be opened, created, measured or renamed.
    IoFailure,
    /// A delay that results from merging frames does not fit in 16 bits.
    DelayOverflow,
}

} // verus!
