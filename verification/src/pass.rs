use vstd::prelude::*;
use crate::colour::{nearest, residual, Rgb};
use crate::image::RgbImage;
use crate::kernel::{kernel_is_valid, share3, Tap};
use crate::pixel::RgbPixel;

verus! {

/// One error-diffusion pass: an image, the kernel that spreads the error, and
/// the palette that every output pixel is taken from. Pixels are named by
/// their raster index `k = y * width + x`.
pub struct Pass {
    pub width: int,
    pub height: int,
    pub source: Seq<RgbPixel>,
    pub taps: Seq<Tap>,
    pub divisor: int,
    pub palette: Seq<RgbPixel>,
}

impl Pass {
    /// The image is a full grid, the kernel is valid and the palette is not
    /// empty.
    pub open spec fn well_formed(self) -> bool {
        &&& 0 <= self.width
        &&& 0 <= self.height
        &&& self.source.len() == self.width * self.height
        &&& kernel_is_valid(self.taps, self.divisor)
        &&& self.palette.len() > 0
    }

    /// The index of the pixel whose error tap `t` carries into pixel `k`, or
    /// -1 when that pixel lies outside the image.
    pub open spec fn origin(self, k: int, t: int) -> int {
        let x = k % self.width - self.taps[t].0;
        let y = k / self.width - self.taps[t].1;
        if 0 <= x < self.width && 0 <= y < self.height {
            y * self.width + x
        } else {
            -1
        }
    }

    /// The index of the pixel that tap `t` of pixel `k` points at, or -1 when
    /// it points outside the image: such a tap is dropped.
    pub open spec fn target(self, k: int, t: int) -> int {
        let x = k % self.width + self.taps[t].0;
        let y = k / self.width + self.taps[t].1;
        if 0 <= x < self.width && 0 <= y < self.height {
            y * self.width + x
        } else {
            -1
        }
    }

    /// The error that the first `t` taps carry into pixel `k`. Each tap
    /// contributes its share of the residual of the pixel it comes from, and
    /// only pixels visited before `k` contribute.
    pub open spec fn carried(self, k: int, t: int) -> Rgb
        decreases k, t,
    {
        if t <= 0 {
            Rgb::zero()
        } else {
            let before = self.carried(k, t - 1);
            let s = self.origin(k, t - 1);
            if 0 <= s < k {
                before.plus(
                    share3(
                        residual(
                            self.source[s]@.plus(self.carried(s, self.taps.len() as int)),
                            self.palette,
                        ),
                        self.taps[t - 1].2 as int,
                        self.divisor,
                    ),
                )
            } else {
                before
            }
        }
    }

    /// The colour that is quantized at pixel `k`: the source pixel plus all
    /// the error carried into it. It is not clamped.
    pub open spec fn effective(self, k: int) -> Rgb {
        self.source[k]@.plus(self.carried(k, self.taps.len() as int))
    }

    /// The output pixel at `k`.
    pub open spec fn quantized(self, k: int) -> RgbPixel {
        nearest(self.effective(k), self.palette)
    }

    /// The quantization residual at `k`, which the kernel spreads onward.
    pub open spec fn error(self, k: int) -> Rgb {
        residual(self.effective(k), self.palette)
    }

    /// The dithered image, in raster order.
    pub open spec fn output(self) -> Seq<RgbPixel> {
        Seq::new(self.source.len(), |k: int| self.quantized(k))
    }
}

/// The pass that `diffuse` runs on an image with a kernel and a palette.
pub open spec fn pass_of(
    image: RgbImage,
    matrix: Seq<Tap>,
    portions: int,
    palette: Seq<RgbPixel>,
) -> Pass {
    Pass {
        width: image.spec_width() as int,
        height: image.spec_height() as int,
        source: image@,
        taps: matrix,
        divisor: portions,
        palette,
    }
}

} // verus!
