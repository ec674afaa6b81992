use vstd::prelude::*;

verus! {

/// Every way an operation of this library can refuse its input.
#[derive(Debug, Clone, Copy, PartialEq, Eq, Structural)]
pub enum GeoError {
    /// A coordinate was read with an arity other than the buffer's dimension,
    /// or coordinates of mixed dimension were given.
    DimensionMismatch,
    /// An offset buffer is empty, decreasing, does not start at zero, or does
    /// not end at the length of the buffer it addresses.
    InvalidOffsets,
    /// The run count of one nesting level disagrees with the next level.
    StructuralMismatch,
    /// The chunks of a chunked array hold different geometry variants.
    ChunkVariantMismatch,
    /// The chunks of a chunked array hold different dimensions.
    ChunkDimensionMismatch,
    /// The algorithm does not apply to this geometry variant.
    UnsupportedVariant,
}

} // verus!
