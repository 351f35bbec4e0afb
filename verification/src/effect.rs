use vstd::prelude::*;
use crate::bayer::{is_ordered_dither_of, is_power_of_two, Bayer, MAX_MATRIX_SIZE};
use crate::diffusion::is_diffusion_of;
use crate::error::DitherError;
use crate::image::RgbImage;
use crate::kernel::diffusion_fits;
use crate::pixel::RgbPixel;
use crate::propagator::{ErrorPropagator, WithPalette};

verus! {

/// An effect that can be applied to a `T`.
pub trait Effect<T> {
    /// The items that are within the machine limits of the effect.
    spec fn admits(&self, item: &T) -> bool;

    /// `result` is what the effect makes of `item`.
    spec fn yields(&self, item: &T, result: Result<T, DitherError>) -> bool;

    /// Applies the effect to the item.
    fn affect(&self, item: T) -> (result: Result<T, DitherError>)
        requires
            self.admits(&item),
        ensures
            self.yields(&item, result),
    ;
}

/// Something that effects can be applied to. Every `T` is, for every effect
/// on `T`.
pub trait Affectable<T, F: Effect<T>> {
    /// The item as the effect sees it.
    spec fn subject(&self) -> T;

    /// Applies an effect to `self`.
    fn apply(self, effect: &F) -> (result: Result<T, DitherError>)
        requires
            effect.admits(&self.subject()),
        ensures
            effect.yields(&self.subject(), result),
    ;
}

impl<T, F: Effect<T>> Affectable<T, F> for T {
    open spec fn subject(&self) -> T {
        *self
    }

    fn apply(self, effect: &F) -> (result: Result<T, DitherError>) {
        effect.affect(self)
    }
}

/// Inverts the colours: every channel `c` becomes `255 - c`.
pub struct Invert;

impl Effect<RgbPixel> for Invert {
    open spec fn admits(&self, item: &RgbPixel) -> bool {
        true
    }

    open spec fn yields(&self, item: &RgbPixel, result: Result<RgbPixel, DitherError>) -> bool {
        result == Ok::<RgbPixel, DitherError>(
            RgbPixel((255 - item.0) as u8, (255 - item.1) as u8, (255 - item.2) as u8),
        )
    }

    fn affect(&self, item: RgbPixel) -> (result: Result<RgbPixel, DitherError>) {
        Ok(RgbPixel(255 - item.0, 255 - item.1, 255 - item.2))
    }
}

/// An effect on pixels is an effect on images: it is applied to every pixel,
/// and fails with the error of the first pixel on which it fails.
impl<F: Effect<RgbPixel>> Effect<RgbImage> for F {
    open spec fn admits(&self, item: &RgbImage) -> bool {
        forall|k: int|
            0 <= k < item@.len() ==> <F as Effect<RgbPixel>>::admits(self, &#[trigger] item@[k])
    }

    open spec fn yields(&self, item: &RgbImage, result: Result<RgbImage, DitherError>) -> bool {
        match result {
            Ok(out) => {
                &&& out.spec_width() == item.spec_width()
                &&& out.spec_height() == item.spec_height()
                &&& out@.len() == item@.len()
                &&& forall|k: int|
                    0 <= k < item@.len() ==> <F as Effect<RgbPixel>>::yields(
                        self,
                        &item@[k],
                        Ok::<RgbPixel, DitherError>(#[trigger] out@[k]),
                    )
            },
            Err(e) => exists|k: int|
                0 <= k < item@.len() && <F as Effect<RgbPixel>>::yields(
                    self,
                    &#[trigger] item@[k],
                    Err::<RgbPixel, DitherError>(e),
                ),
        }
    }

    fn affect(&self, item: RgbImage) -> (result: Result<RgbImage, DitherError>) {
        let source = item.pixels();
        let mut out: Vec<RgbPixel> = Vec::new();
        let mut k: usize = 0;
        while k < source.len()
            invariant
                k <= source@.len(),
                source@ == item@,
                out@.len() == k,
                <F as Effect<RgbImage>>::admits(self, &item),
                forall|j: int|
                    0 <= j < k ==> <F as Effect<RgbPixel>>::yields(
                        self,
                        &item@[j],
                        Ok::<RgbPixel, DitherError>(#[trigger] out@[j]),
                    ),
            decreases source@.len() - k,
        {
            assert(<F as Effect<RgbPixel>>::admits(self, &item@[k as int]));
            match <F as Effect<RgbPixel>>::affect(self, source[k]) {
                Ok(pixel) => {
                    out.push(pixel);
                },
                Err(e) => {
                    return Err(e);
                },
            }
            k += 1;
        }
        Ok(item.reshaped(out))
    }
}

impl Effect<RgbImage> for Bayer {
    open spec fn admits(&self, item: &RgbImage) -> bool {
        is_power_of_two(self.matrix_size as nat) ==> self.matrix_size <= MAX_MATRIX_SIZE
    }

    open spec fn yields(&self, item: &RgbImage, result: Result<RgbImage, DitherError>) -> bool {
        is_ordered_dither_of(result, *item, self.matrix_size, self.amplitude as int, self.palette@)
    }

    fn affect(&self, item: RgbImage) -> (result: Result<RgbImage, DitherError>) {
        Bayer::affect(self, item)
    }
}

impl Effect<RgbImage> for ErrorPropagator<WithPalette> {
    open spec fn admits(&self, item: &RgbImage) -> bool {
        diffusion_fits(self.matrix@, self.portions as int, item@.len())
    }

    open spec fn yields(&self, item: &RgbImage, result: Result<RgbImage, DitherError>) -> bool {
        is_diffusion_of(result, *item, self.matrix@, self.portions as int, self.palette_view())
    }

    fn affect(&self, item: RgbImage) -> (result: Result<RgbImage, DitherError>) {
        ErrorPropagator::<WithPalette>::affect(self, item)
    }
}

} // verus!
