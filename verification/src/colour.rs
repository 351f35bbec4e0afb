use vstd::prelude::*;
use crate::error::DitherError;
use crate::pixel::RgbPixel;

verus! {

/// The mathematical value of a colour: three unbounded channel values.
pub struct Rgb {
    pub r: int,
    pub g: int,
    pub b: int,
}

impl Rgb {
    pub open spec fn zero() -> Rgb {
        Rgb { r: 0, g: 0, b: 0 }
    }

    pub open spec fn plus(self, other: Rgb) -> Rgb {
        Rgb { r: self.r + other.r, g: self.g + other.g, b: self.b + other.b }
    }

    pub open spec fn minus(self, other: Rgb) -> Rgb {
        Rgb { r: self.r - other.r, g: self.g - other.g, b: self.b - other.b }
    }

    /// Every channel is within `bound` of zero.
    pub open spec fn within(self, bound: int) -> bool {
        &&& -bound <= self.r <= bound
        &&& -bound <= self.g <= bound
        &&& -bound <= self.b <= bound
    }
}

/// A triple of signed channel values. It holds what may leave the channel
/// domain: a source pixel plus the error carried to it, or a quantization
/// residual.
#[derive(Debug, Clone, Copy, PartialEq, Eq, Structural)]
pub struct Color {
    pub red: i64,
    pub green: i64,
    pub blue: i64,
}

/// The largest channel magnitude the quantizer accepts: 2^60.
pub const CHANNEL_LIMIT: i64 = 0x1000_0000_0000_0000;

/// The midpoint of the channel domain: a channel exceeds it from 128 on.
pub const MIDPOINT: i64 = 127;

impl View for Color {
    type V = Rgb;

    open spec fn view(&self) -> Rgb {
        Rgb { r: self.red as int, g: self.green as int, b: self.blue as int }
    }
}

impl Color {
    /// Every channel is within `CHANNEL_LIMIT` of zero.
    pub open spec fn in_range(self) -> bool {
        self@.within(CHANNEL_LIMIT as int)
    }

    pub fn new(red: i64, green: i64, blue: i64) -> (color: Color)
        ensures
            color == (Color { red, green, blue }),
    {
        Color { red, green, blue }
    }

    /// The colour of an in-domain pixel.
    pub fn from_pixel(pixel: RgbPixel) -> (color: Color)
        ensures
            color@ == pixel@,
            color.in_range(),
    {
        Color { red: pixel.0 as i64, green: pixel.1 as i64, blue: pixel.2 as i64 }
    }
}

/// The weighted squared-Euclidean distance between two colours. The weights
/// follow the red channel of the first colour: (3, 4, 2) when it exceeds the
/// midpoint of the domain, (2, 4, 3) otherwise. The measure is therefore not
/// symmetric.
pub open spec fn distance_spec(a: Rgb, b: Rgb) -> int {
    let dr = a.r - b.r;
    let dg = a.g - b.g;
    let db = a.b - b.b;
    if a.r > MIDPOINT {
        3 * (dr * dr) + 4 * (dg * dg) + 2 * (db * db)
    } else {
        2 * (dr * dr) + 4 * (dg * dg) + 3 * (db * db)
    }
}

proof fn lemma_square_bound(d: int, limit: int)
    by (nonlinear_arith)
    requires
        -limit <= d <= limit,
    ensures
        0 <= d * d <= limit * limit,
{
}

/// A distance is never negative, and it is zero only between equal colours.
pub proof fn lemma_distance_zero(a: Rgb, b: Rgb)
    ensures
        distance_spec(a, b) >= 0,
        distance_spec(a, b) == 0 <==> a == b,
{
    let dr = a.r - b.r;
    let dg = a.g - b.g;
    let db = a.b - b.b;
    assert(dr * dr >= 0 && (dr * dr == 0 <==> dr == 0)) by (nonlinear_arith);
    assert(dg * dg >= 0 && (dg * dg == 0 <==> dg == 0)) by (nonlinear_arith);
    assert(db * db >= 0 && (db * db == 0 <==> db == 0)) by (nonlinear_arith);
}

/// Scores how far `b` is from `a`.
pub fn distance(a: &Color, b: &Color) -> (d: u128)
    requires
        a.in_range(),
        b.in_range(),
    ensures
        d as int == distance_spec(a@, b@),
{
    let dr: i128 = a.red as i128 - b.red as i128;
    let dg: i128 = a.green as i128 - b.green as i128;
    let db: i128 = a.blue as i128 - b.blue as i128;
    proof {
        let limit: int = 2 * CHANNEL_LIMIT;
        lemma_square_bound(dr as int, limit);
        lemma_square_bound(dg as int, limit);
        lemma_square_bound(db as int, limit);
        assert(limit * limit == 0x0400_0000_0000_0000_0000_0000_0000_0000) by (nonlinear_arith)
            requires
                limit == 0x2000_0000_0000_0000,
        ;
    }
    let rr: i128 = dr * dr;
    let gg: i128 = dg * dg;
    let bb: i128 = db * db;
    if a.red > MIDPOINT {
        (3 * rr + 4 * gg + 2 * bb) as u128
    } else {
        (2 * rr + 4 * gg + 3 * bb) as u128
    }
}

/// Entry `i` of the palette is nearest to `color`, and no earlier entry is as
/// near: the entry a first-wins scan settles on.
pub open spec fn is_nearest(color: Rgb, palette: Seq<RgbPixel>, i: int) -> bool {
    &&& 0 <= i < palette.len()
    &&& forall|j: int|
        0 <= j < palette.len() ==> distance_spec(color, palette[i]@) <= distance_spec(
            color,
            #[trigger] palette[j]@,
        )
    &&& forall|j: int|
        0 <= j < i ==> distance_spec(color, palette[i]@) < distance_spec(
            color,
            #[trigger] palette[j]@,
        )
}

/// The index of the palette entry that `color` quantizes to.
pub open spec fn nearest_index(color: Rgb, palette: Seq<RgbPixel>) -> int {
    choose|i: int| is_nearest(color, palette, i)
}

/// The palette entry that `color` quantizes to.
pub open spec fn nearest(color: Rgb, palette: Seq<RgbPixel>) -> RgbPixel {
    palette[nearest_index(color, palette)]
}

/// The quantization residual: `color` minus the entry it quantizes to.
pub open spec fn residual(color: Rgb, palette: Seq<RgbPixel>) -> Rgb {
    color.minus(nearest(color, palette)@)
}

/// At most one index is the nearest, so whichever is found is the one that
/// `nearest_index` names.
pub proof fn lemma_nearest_unique(color: Rgb, palette: Seq<RgbPixel>, i: int)
    requires
        is_nearest(color, palette, i),
    ensures
        nearest_index(color, palette) == i,
{
    let j = nearest_index(color, palette);
    assert(is_nearest(color, palette, j));
    if j < i {
        assert(distance_spec(color, palette[i]@) < distance_spec(color, palette[j]@));
        assert(distance_spec(color, palette[j]@) <= distance_spec(color, palette[i]@));
    } else if i < j {
        assert(distance_spec(color, palette[j]@) < distance_spec(color, palette[i]@));
        assert(distance_spec(color, palette[i]@) <= distance_spec(color, palette[j]@));
    }
}

/// Every non-empty palette has a nearest entry for every colour.
pub proof fn lemma_nearest_exists(color: Rgb, palette: Seq<RgbPixel>)
    requires
        palette.len() > 0,
    ensures
        is_nearest(color, palette, nearest_index(color, palette)),
    decreases palette.len(),
{
    if palette.len() == 1 {
        assert(is_nearest(color, palette, 0));
    } else {
        let front = palette.drop_last();
        lemma_nearest_exists(color, front);
        let i = nearest_index(color, front);
        let last = palette.len() - 1;
        assert forall|j: int| 0 <= j < last implies front[j] == palette[j] by {}
        if distance_spec(color, palette[last]@) < distance_spec(color, palette[i]@) {
            assert forall|j: int| 0 <= j < palette.len() implies distance_spec(
                color,
                palette[last]@,
            ) <= distance_spec(color, #[trigger] palette[j]@) by {
                if j < last {
                    assert(distance_spec(color, front[i]@) <= distance_spec(color, front[j]@));
                }
            }
            assert forall|j: int| 0 <= j < last implies distance_spec(color, palette[last]@)
                < distance_spec(color, #[trigger] palette[j]@) by {
                assert(distance_spec(color, front[i]@) <= distance_spec(color, front[j]@));
            }
            assert(is_nearest(color, palette, last));
        } else {
            assert forall|j: int| 0 <= j < palette.len() implies distance_spec(
                color,
                palette[i]@,
            ) <= distance_spec(color, #[trigger] palette[j]@) by {
                if j < last {
                    assert(distance_spec(color, front[i]@) <= distance_spec(color, front[j]@));
                }
            }
            assert forall|j: int| 0 <= j < i implies distance_spec(color, palette[i]@)
                < distance_spec(color, #[trigger] palette[j]@) by {
                assert(distance_spec(color, front[i]@) < distance_spec(color, front[j]@));
            }
            assert(is_nearest(color, palette, i));
        }
    }
}

/// What quantizing a colour yields: the chosen palette entry, and the signed
/// residual `input - quantized_color`, which is not clamped.
#[derive(Debug, Clone, Copy, PartialEq, Eq, Structural)]
pub struct QuantizationResult {
    pub quantized_color: RgbPixel,
    pub error: Color,
}

/// The linear scan over a palette that is known to have an entry.
pub(crate) fn nearest_entry(color: Color, palette: &[RgbPixel]) -> (q: QuantizationResult)
    requires
        color.in_range(),
        palette@.len() > 0,
    ensures
        is_nearest(color@, palette@, nearest_index(color@, palette@)),
        q.quantized_color == nearest(color@, palette@),
        palette@.contains(q.quantized_color),
        q.error@ == residual(color@, palette@),
{
    let mut best: usize = 0;
    let mut best_distance: u128 = distance(&color, &Color::from_pixel(palette[0]));
    let mut i: usize = 1;
    while i < palette.len()
        invariant
            color.in_range(),
            1 <= i <= palette@.len(),
            0 <= best < i,
            best_distance as int == distance_spec(color@, palette@[best as int]@),
            forall|j: int|
                0 <= j < i ==> best_distance as int <= distance_spec(
                    color@,
                    #[trigger] palette@[j]@,
                ),
            forall|j: int|
                0 <= j < best ==> (best_distance as int) < distance_spec(
                    color@,
                    #[trigger] palette@[j]@,
                ),
        decreases palette@.len() - i,
    {
        let d = distance(&color, &Color::from_pixel(palette[i]));
        if d < best_distance {
            best = i;
            best_distance = d;
        }
        i += 1;
    }
    proof {
        assert(is_nearest(color@, palette@, best as int));
        lemma_nearest_unique(color@, palette@, best as int);
    }
    let chosen = palette[best];
    QuantizationResult {
        quantized_color: chosen,
        error: Color {
            red: color.red - chosen.0 as i64,
            green: color.green - chosen.1 as i64,
            blue: color.blue - chosen.2 as i64,
        },
    }
}

/// Finds the palette entry closest to `color` by a linear scan that keeps the
/// first entry of minimal distance, and returns it with the residual.
pub fn quantize(color: Color, palette: &[RgbPixel]) -> (result: Result<
    QuantizationResult,
    DitherError,
>)
    requires
        color.in_range(),
    ensures
        palette@.len() == 0 <==> result.is_err(),
        result.is_err() ==> result == Err::<QuantizationResult, DitherError>(
            DitherError::EmptyPalette,
        ),
        result matches Ok(q) ==> {
            &&& is_nearest(color@, palette@, nearest_index(color@, palette@))
            &&& q.quantized_color == nearest(color@, palette@)
            &&& palette@.contains(q.quantized_color)
            &&& q.error@ == residual(color@, palette@)
        },
{
    if palette.len() == 0 {
        return Err(DitherError::EmptyPalette);
    }
    Ok(nearest_entry(color, palette))
}

} // verus!
