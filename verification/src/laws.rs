use vstd::prelude::*;
use crate::colour::{
    distance_spec, is_nearest, lemma_distance_zero, lemma_nearest_exists, nearest, nearest_index,
    residual, Rgb,
};
use crate::image::lemma_cell_in_bounds;
use crate::kernel::{
    distributed, lemma_error_conservation, share3, tap_is_causal, total_weight,
};
use crate::pass::Pass;
use crate::pixel::RgbPixel;

verus! {

/// In a valid kernel every tap that stays inside the image points at a pixel
/// that is visited strictly later: error reaches only pixels that are not yet
/// quantized.
pub proof fn lemma_target_is_later(pass: Pass, k: int, t: int)
    requires
        pass.well_formed(),
        0 <= k < pass.source.len(),
        0 <= t < pass.taps.len(),
    ensures
        pass.target(k, t) == -1 || k < pass.target(k, t) < pass.source.len(),
{
    let w = pass.width;
    let h = pass.height;
    assert(w > 0) by (nonlinear_arith)
        requires
            0 <= w,
            0 <= h,
            0 <= k < w * h,
    ;
    let x = k % w + pass.taps[t].0;
    let y = k / w + pass.taps[t].1;
    assert(tap_is_causal(pass.taps[t]));
    vstd::arithmetic::div_mod::lemma_fundamental_div_mod(k, w);
    assert(w * (k / w) == (k / w) * w) by (nonlinear_arith);
    if 0 <= x < w && 0 <= y < h {
        lemma_cell_in_bounds(x, y, w, h);
        if pass.taps[t].1 > 0 {
            assert(y * w >= (k / w) * w + w) by (nonlinear_arith)
                requires
                    y >= k / w + 1,
                    w > 0,
            ;
        }
    }
}

/// In a valid kernel every error carried into a pixel comes from a pixel
/// visited strictly earlier, so what a pixel has received is settled by the
/// time it is visited.
pub proof fn lemma_origin_is_earlier(pass: Pass, k: int, t: int)
    requires
        pass.well_formed(),
        0 <= k < pass.source.len(),
        0 <= t < pass.taps.len(),
    ensures
        -1 <= pass.origin(k, t) < k,
{
    let w = pass.width;
    let h = pass.height;
    assert(w > 0) by (nonlinear_arith)
        requires
            0 <= w,
            0 <= h,
            0 <= k < w * h,
    ;
    let x = k % w - pass.taps[t].0;
    let y = k / w - pass.taps[t].1;
    assert(tap_is_causal(pass.taps[t]));
    vstd::arithmetic::div_mod::lemma_fundamental_div_mod(k, w);
    assert(w * (k / w) == (k / w) * w) by (nonlinear_arith);
    if 0 <= x < w && 0 <= y < h {
        lemma_cell_in_bounds(x, y, w, h);
        if pass.taps[t].1 > 0 {
            assert(y * w + w <= (k / w) * w) by (nonlinear_arith)
                requires
                    y + 1 <= k / w,
                    w > 0,
            ;
        }
    }
}

impl Pass {
    /// What pixel `k` sends to its neighbours over its first `t` taps: the
    /// shares of the taps that point inside the image.
    pub open spec fn spread(self, k: int, t: int) -> Rgb
        decreases t,
    {
        if t <= 0 {
            Rgb::zero()
        } else {
            let before = self.spread(k, t - 1);
            if self.target(k, t - 1) >= 0 {
                before.plus(share3(self.error(k), self.taps[t - 1].2 as int, self.divisor))
            } else {
                before
            }
        }
    }
}

/// `sent` restores `error` up to what rounding toward zero loses over `taps`
/// taps: less than one unit per tap, never beyond the error, and nothing when
/// the divisor divides the error.
pub open spec fn conserves(error: int, sent: int, taps: int, divisor: int) -> bool {
    &&& error >= 0 ==> error - taps < sent <= error
    &&& error <= 0 ==> error <= sent < error + taps
    &&& error % divisor == 0 ==> sent == error
}

proof fn lemma_spread_inside(pass: Pass, k: int, t: int)
    requires
        forall|i: int| 0 <= i < t ==> pass.target(k, i) >= 0,
    ensures
        pass.spread(k, t) == (Rgb {
            r: distributed(pass.error(k).r, pass.taps, pass.divisor, t),
            g: distributed(pass.error(k).g, pass.taps, pass.divisor, t),
            b: distributed(pass.error(k).b, pass.taps, pass.divisor, t),
        }),
    decreases t,
{
    if t > 0 {
        lemma_spread_inside(pass, k, t - 1);
    }
}

/// Error conservation. With a kernel whose tap weights sum to its divisor, a
/// pixel whose taps all point inside the image sends its neighbours, in
/// total, its whole quantization residual, up to rounding.
pub proof fn lemma_pixel_conserves_error(pass: Pass, k: int)
    requires
        pass.well_formed(),
        0 <= k < pass.source.len(),
        total_weight(pass.taps) == pass.divisor,
        forall|t: int| 0 <= t < pass.taps.len() ==> pass.target(k, t) >= 0,
    ensures
        conserves(
            pass.error(k).r,
            pass.spread(k, pass.taps.len() as int).r,
            pass.taps.len() as int,
            pass.divisor,
        ),
        conserves(
            pass.error(k).g,
            pass.spread(k, pass.taps.len() as int).g,
            pass.taps.len() as int,
            pass.divisor,
        ),
        conserves(
            pass.error(k).b,
            pass.spread(k, pass.taps.len() as int).b,
            pass.taps.len() as int,
            pass.divisor,
        ),
{
    lemma_spread_inside(pass, k, pass.taps.len() as int);
    lemma_error_conservation(pass.error(k).r, pass.taps, pass.divisor);
    lemma_error_conservation(pass.error(k).g, pass.taps, pass.divisor);
    lemma_error_conservation(pass.error(k).b, pass.taps, pass.divisor);
}

/// Every pixel of the dithered image is a member of the palette.
pub proof fn lemma_output_in_palette(pass: Pass, k: int)
    requires
        pass.well_formed(),
        0 <= k < pass.source.len(),
    ensures
        pass.palette.contains(pass.output()[k]),
{
    lemma_nearest_exists(pass.effective(k), pass.palette);
}

/// A colour that is in the palette quantizes to itself, with no residual.
pub proof fn lemma_member_is_fixed(c: RgbPixel, palette: Seq<RgbPixel>)
    requires
        palette.contains(c),
    ensures
        nearest(c@, palette) == c,
        residual(c@, palette) == Rgb::zero(),
{
    lemma_nearest_exists(c@, palette);
    let i = nearest_index(c@, palette);
    let j = choose|j: int| 0 <= j < palette.len() && palette[j] == c;
    assert(is_nearest(c@, palette, i));
    lemma_distance_zero(c@, palette[j]@);
    lemma_distance_zero(c@, palette[i]@);
    assert(distance_spec(c@, palette[i]@) <= distance_spec(
        c@,
        palette[j]@,
    ));
    assert(palette[i]@ == c@);
    assert(palette[i] == c);
}

proof fn lemma_uniform_carries_nothing(pass: Pass, c: RgbPixel, k: int, t: int)
    requires
        pass.well_formed(),
        forall|j: int| 0 <= j < pass.source.len() ==> pass.source[j] == c,
        pass.palette.contains(c),
        0 <= k < pass.source.len(),
    ensures
        pass.carried(k, t) == Rgb::zero(),
    decreases k, t,
{
    if t > 0 {
        lemma_uniform_carries_nothing(pass, c, k, t - 1);
        let s = pass.origin(k, t - 1);
        if 0 <= s < k {
            lemma_uniform_carries_nothing(pass, c, s, pass.taps.len() as int);
            lemma_member_is_fixed(c, pass.palette);
            assert(pass.source[s]@.plus(Rgb::zero()) == c@);
            let w = pass.taps[t - 1].2 as int;
            assert(0 * w == 0);
            assert(share3(Rgb::zero(), w, pass.divisor) == Rgb::zero());
        }
    }
}

/// Fixed point. Dithering an image of a single colour that the palette
/// contains leaves the image unchanged, under any valid kernel: no pixel has
/// a residual and no error is carried into any pixel.
pub proof fn lemma_fixed_point(pass: Pass, c: RgbPixel)
    requires
        pass.well_formed(),
        forall|j: int| 0 <= j < pass.source.len() ==> pass.source[j] == c,
        pass.palette.contains(c),
    ensures
        pass.output() == pass.source,
        forall|k: int|
            0 <= k < pass.source.len() ==> #[trigger] pass.error(k) == Rgb::zero()
                && pass.carried(k, pass.taps.len() as int) == Rgb::zero(),
{
    lemma_member_is_fixed(c, pass.palette);
    assert forall|k: int| 0 <= k < pass.source.len() implies #[trigger] pass.error(k)
        == Rgb::zero() && pass.carried(k, pass.taps.len() as int) == Rgb::zero()
        && pass.quantized(k) == c by {
        lemma_uniform_carries_nothing(pass, c, k, pass.taps.len() as int);
        assert(pass.source[k]@.plus(Rgb::zero()) == c@);
    }
    assert(pass.output() =~= pass.source) by {
        assert forall|k: int| 0 <= k < pass.source.len() implies pass.output()[k]
            == pass.source[k] by {
            assert(pass.error(k) == Rgb::zero());
        }
    }
}

} // verus!
