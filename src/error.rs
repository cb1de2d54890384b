use vstd::prelude::*;

verus! {

/// Failures that the image pipeline reports to its caller instead of
/// producing corrupted pixel data.
#[derive(Debug, Clone, Copy, PartialEq, Eq, Structural)]
pub enum ThermoError {
    /// A sample sequence held no value.
    EmptyInput,
    /// A buffer length disagrees with the declared width and height.
    DimensionMismatch,
    /// A raw camera buffer is shorter than its declared dimensions require.
    BufferTooShort,
    /// The temperature scale has equal lower and upper bounds.
    DegenerateScale,
    /// The demosaic step needs at least two columns and two rows.
    UnsupportedDimensions,
}

} // verus!
