//! Image effects that reduce an image to a fixed palette while keeping
//! perceived detail: error-diffusion dithering driven by a diffusion kernel,
//! ordered dithering driven by a Bayer threshold matrix, and the nearest-colour
//! quantizer both rest on.
//!
//! Colours live in the integer channel domain `0..=255`, whose midpoint lies
//! between 127 and 128. Values that carry diffused error may leave that
//! domain; they are held in [`colour::Color`] and are never clamped. Where a
//! quotient is taken, of an error over a kernel's divisor or of a threshold
//! over its matrix, it is rounded toward zero.
//!
//! Every function is verified against a contract over mathematical models:
//! [`pass::Pass`] says what an error-diffusion pass computes, pixel by pixel;
//! [`bayer::bayer_value`] says what a threshold matrix holds. What is taken
//! on trust is named where it stands: the calls into `ndarray`, `moveslice`
//! and `rand`.
//!
//! The modules, from the leaves up:
//! - [`pixel`], [`colour`]: pixels, the colour distance and the quantizer;
//! - [`kernel`], [`table`], [`propagator`]: diffusion kernels, the named
//!   kernels, and a kernel configured with a palette;
//! - [`pass`], [`accumulator`], [`diffusion`], [`laws`]: what an
//!   error-diffusion pass computes, why the engine computes it, the engine, and
//!   what holds of every pass;
//! - [`bayer`]: the threshold matrix and ordered dithering;
//! - [`dither`], [`effect`]: the algorithms by name, and effects as values;
//! - [`bytes`], [`corrupt`], [`databend`]: effects on raw bytes;
//! - [`image`], [`error`], [`utils`]: the pixel grid, the errors, helpers.

pub mod accumulator;
pub mod bayer;
pub mod bytes;
pub mod colour;
pub mod corrupt;
pub mod databend;
pub mod diffusion;
pub mod dither;
pub mod effect;
pub mod error;
pub mod image;
pub mod kernel;
pub mod laws;
pub mod pass;
pub mod pixel;
pub mod propagator;
mod sealed;
pub mod table;
pub mod utils;
