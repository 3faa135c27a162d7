//! Error taxonomy of the crop engine.

use vstd::prelude::*;

verus! {

/// Every failure the engine reports to its caller.
#[derive(Clone, Copy, Debug, PartialEq, Eq, Structural)]
pub enum CropError {
    /// Malformed request: mismatched array lengths, an out-of-range
    /// normalized coordinate, a zero-sized window or channel count,
    /// or a destination buffer of the wrong size.
    InvalidArgument,
    /// A path could not be read.
    IoFailure,
    /// The image bytes could not be parsed, or the format is unsupported.
    DecodeFailure,
    /// The image-processing backend reported a crop or resize error.
    BackendFailure,
    /// A produced result slab does not match the expected stride.
    ContractViolation,
    /// Double initialization of backend-global state, or use of a
    /// manager after destruction.
    LifecycleMisuse,
}

} // verus!
