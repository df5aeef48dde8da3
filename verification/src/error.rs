use vstd::prelude::*;

verus! {

/// Why a transform refused its input. A transform either returns a complete
/// output buffer or one of these, never a partial result.
#[derive(Clone, Copy, Debug, PartialEq, Eq)]
pub enum TransformError {
    /// The buffer does not hold a whole number of four-byte pixels.
    MalformedBuffer,
    /// The buffer does not hold exactly `width * height` pixels.
    DimensionMismatch,
    /// A statistic was asked of an image without pixels.
    EmptyInput,
}

} // verus!
