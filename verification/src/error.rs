use vstd::prelude::*;

verus! {

/// Why a dithering operation refused its input. Each is detected before any
/// pixel is written, so no partial output is ever produced.
#[derive(Debug, Clone, Copy, PartialEq, Eq, Structural)]
pub enum DitherError {
    /// The palette has no entries.
    EmptyPalette,
    /// The kernel's divisor is zero, or one of its taps points at a pixel that
    /// raster order has already visited.
    InvalidKernel,
    /// The matrix size is zero or not a power of two.
    InvalidMatrixSize,
}

impl DitherError {
    /// A one-line description for the caller.
    pub fn describe(&self) -> (text: &'static str)
        ensures
            text@ == (match *self {
                DitherError::EmptyPalette => "the palette is empty"@,
                DitherError::InvalidKernel => "the diffusion kernel is invalid"@,
                DitherError::InvalidMatrixSize => "the matrix size is not a power of two"@,
            }),
    {
        match self {
            DitherError::EmptyPalette => "the palette is empty",
            DitherError::InvalidKernel => "the diffusion kernel is invalid",
            DitherError::InvalidMatrixSize => "the matrix size is not a power of two",
        }
    }
}

} // verus!
