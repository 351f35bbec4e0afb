use vstd::prelude::*;
use crate::colour::{
    distance, distance_spec, is_nearest, nearest, nearest_index, quantize, Color, Rgb,
};
use crate::error::DitherError;

verus! {

/// A pixel in the RGB colour space; each channel lies in `0..=255`.
#[derive(Debug, Clone, Copy, PartialEq, Eq, Structural)]
pub struct RgbPixel(pub u8, pub u8, pub u8);

impl View for RgbPixel {
    type V = Rgb;

    open spec fn view(&self) -> Rgb {
        Rgb { r: self.0 as int, g: self.1 as int, b: self.2 as int }
    }
}

/// Clamps a signed value into the channel domain.
pub open spec fn clamp_channel(v: int) -> int {
    if v < 0 {
        0
    } else if v > 255 {
        255
    } else {
        v
    }
}

fn clamp_to_channel(v: i64) -> (c: u8)
    ensures
        c as int == clamp_channel(v as int),
{
    if v < 0 {
        0
    } else if v > 255 {
        255
    } else {
        v as u8
    }
}

impl RgbPixel {
    pub fn new(r: u8, g: u8, b: u8) -> (pixel: Self)
        ensures
            pixel == RgbPixel(r, g, b),
    {
        RgbPixel(r, g, b)
    }

    /// Takes a pixel from its three channel bytes.
    pub fn rgb_from(channels: &[u8; 3]) -> (pixel: Self)
        ensures
            pixel == RgbPixel(channels[0], channels[1], channels[2]),
    {
        RgbPixel(channels[0], channels[1], channels[2])
    }

    /// Adds an error to each of the channels, clamping each sum to `0..=255`.
    pub fn add_error(self, error: (i32, i32, i32)) -> (pixel: RgbPixel)
        ensures
            pixel.0 as int == clamp_channel(self.0 + error.0),
            pixel.1 as int == clamp_channel(self.1 + error.1),
            pixel.2 as int == clamp_channel(self.2 + error.2),
    {
        RgbPixel(
            clamp_to_channel(self.0 as i64 + error.0 as i64),
            clamp_to_channel(self.1 as i64 + error.1 as i64),
            clamp_to_channel(self.2 as i64 + error.2 as i64),
        )
    }

    /// The signed channel-wise difference `self - other`.
    pub fn get_error(&self, other: &RgbPixel) -> (error: (i32, i32, i32))
        ensures
            error.0 == self.0 - other.0,
            error.1 == self.1 - other.1,
            error.2 == self.2 - other.2,
    {
        (
            self.0 as i32 - other.0 as i32,
            self.1 as i32 - other.1 as i32,
            self.2 as i32 - other.2 as i32,
        )
    }

    /// How far `other` is from this pixel, by the weighted squared-Euclidean
    /// measure whose weights follow this pixel's red channel.
    pub fn get_difference(&self, other: &RgbPixel) -> (d: u32)
        ensures
            d == distance_spec(self@, other@),
    {
        let d = distance(&Color::from_pixel(*self), &Color::from_pixel(*other));
        proof {
            let dr = self.0 - other.0;
            let dg = self.1 - other.1;
            let db = self.2 - other.2;
            assert(0 <= dr * dr <= 65025 && 0 <= dg * dg <= 65025 && 0 <= db * db <= 65025)
                by (nonlinear_arith)
                requires
                    -255 <= dr <= 255,
                    -255 <= dg <= 255,
                    -255 <= db <= 255,
            ;
        }
        d as u32
    }

    /// Quantizes the pixel to the nearest colour of the palette; of several
    /// equally near, to the first.
    pub fn quantize(&self, palette: &[RgbPixel]) -> (result: Result<RgbPixel, DitherError>)
        ensures
            palette@.len() == 0 <==> result.is_err(),
            result.is_err() ==> result == Err::<RgbPixel, DitherError>(
                DitherError::EmptyPalette,
            ),
            result matches Ok(entry) ==> {
                &&& is_nearest(self@, palette@, nearest_index(self@, palette@))
                &&& entry == nearest(self@, palette@)
            },
    {
        match quantize(Color::from_pixel(*self), palette) {
            Ok(q) => Ok(q.quantized_color),
            Err(e) => Err(e),
        }
    }

    /// The `(r, g, b)` channels of the pixel.
    pub fn get(&self) -> (channels: (u8, u8, u8))
        ensures
            channels == (self.0, self.1, self.2),
    {
        (self.0, self.1, self.2)
    }
}

/// A monochromatic pixel: an RGB pixel whose three channels are equal.
#[derive(Debug, Clone, Copy, PartialEq, Eq, Structural)]
pub struct MonoPixel(pub u8);

/// Entry `i` of a monochrome palette is nearest to `value`, and no earlier
/// entry is as near.
pub open spec fn mono_is_nearest(value: int, palette: Seq<MonoPixel>, i: int) -> bool {
    &&& 0 <= i < palette.len()
    &&& forall|j: int|
        0 <= j < palette.len() ==> vstd::math::abs(palette[i].0 - value) <= vstd::math::abs(
            #[trigger] palette[j].0 - value,
        )
    &&& forall|j: int|
        0 <= j < i ==> vstd::math::abs(palette[i].0 - value) < vstd::math::abs(
            #[trigger] palette[j].0 - value,
        )
}

/// The two-tone palette: black and white.
pub fn two_bit() -> (palette: Vec<MonoPixel>)
    ensures
        palette@ == seq![MonoPixel(0), MonoPixel(255)],
{
    let palette = vec![MonoPixel(0), MonoPixel(255)];
    assert(palette@ =~= seq![MonoPixel(0), MonoPixel(255)]);
    palette
}

impl MonoPixel {
    /// The mean of the three channels, rounded down.
    pub open spec fn mean_of(pixel: RgbPixel) -> int {
        (pixel.0 + pixel.1 + pixel.2) / 3
    }

    /// The lightness of a pixel: the mean of its largest and its smallest
    /// channel, rounded down.
    pub open spec fn lightness_of(pixel: RgbPixel) -> int {
        let high = vstd::math::max(vstd::math::max(pixel.0 as int, pixel.1 as int), pixel.2 as int);
        let low = vstd::math::min(vstd::math::min(pixel.0 as int, pixel.1 as int), pixel.2 as int);
        (high + low) / 2
    }

    /// The monochrome pixel whose value is the mean of the channels.
    pub fn mono_from(pixel: &RgbPixel) -> (mono: MonoPixel)
        ensures
            mono.0 == MonoPixel::mean_of(*pixel),
    {
        let sum: u16 = pixel.0 as u16 + pixel.1 as u16 + pixel.2 as u16;
        MonoPixel((sum / 3) as u8)
    }

    /// The monochrome pixel whose value is the lightness of the pixel.
    pub fn lightness_from(pixel: &RgbPixel) -> (mono: MonoPixel)
        ensures
            mono.0 == MonoPixel::lightness_of(*pixel),
    {
        let mut high: u8 = pixel.0;
        let mut low: u8 = pixel.0;
        if pixel.1 > high {
            high = pixel.1;
        }
        if pixel.2 > high {
            high = pixel.2;
        }
        if pixel.1 < low {
            low = pixel.1;
        }
        if pixel.2 < low {
            low = pixel.2;
        }
        MonoPixel(((high as u16 + low as u16) / 2) as u8)
    }

    /// Adds an error to the value, clamping the sum to `0..=255`.
    pub fn add_error(self, error: i32) -> (pixel: MonoPixel)
        ensures
            pixel.0 as int == clamp_channel(self.0 + error),
    {
        MonoPixel(clamp_to_channel(self.0 as i64 + error as i64))
    }

    /// Quantizes the pixel to the nearest value of the palette; of several
    /// equally near, to the first.
    pub fn quantize(&self, palette: &[MonoPixel]) -> (result: Result<MonoPixel, DitherError>)
        ensures
            palette@.len() == 0 <==> result.is_err(),
            result.is_err() ==> result == Err::<MonoPixel, DitherError>(
                DitherError::EmptyPalette,
            ),
            result matches Ok(entry) ==> exists|i: int|
                mono_is_nearest(self.0 as int, palette@, i) && entry == palette@[i],
    {
        if palette.len() == 0 {
            return Err(DitherError::EmptyPalette);
        }
        let mut best: usize = 0;
        let mut best_distance: u8 = MonoPixel::gap(palette[0].0, self.0);
        let mut i: usize = 1;
        while i < palette.len()
            invariant
                1 <= i <= palette@.len(),
                0 <= best < i,
                best_distance as int == vstd::math::abs(palette@[best as int].0 - self.0),
                forall|j: int|
                    0 <= j < i ==> best_distance as int <= vstd::math::abs(
                        #[trigger] palette@[j].0 - self.0,
                    ),
                forall|j: int|
                    0 <= j < best ==> (best_distance as int) < vstd::math::abs(
                        #[trigger] palette@[j].0 - self.0,
                    ),
            decreases palette@.len() - i,
        {
            let d = MonoPixel::gap(palette[i].0, self.0);
            if d < best_distance {
                best = i;
                best_distance = d;
            }
            i += 1;
        }
        assert(mono_is_nearest(self.0 as int, palette@, best as int));
        Ok(palette[best])
    }

    fn gap(a: u8, b: u8) -> (d: u8)
        ensures
            d as int == vstd::math::abs(a - b),
    {
        if a >= b {
            a - b
        } else {
            b - a
        }
    }

    /// The signed difference `self - other`.
    pub fn get_error(&self, other: &MonoPixel) -> (error: i32)
        ensures
            error == self.0 - other.0,
    {
        self.0 as i32 - other.0 as i32
    }

    /// The value of the pixel.
    pub fn get(&self) -> (value: u8)
        ensures
            value == self.0,
    {
        self.0
    }
}

} // verus!
