use vstd::prelude::*;
use crate::colour::Rgb;

verus! {

/// One tap of a diffusion kernel: `(dx, dy, weight)`. The pixel at offset
/// `(dx, dy)` from the current one receives `weight / divisor` of its error.
pub type Tap = (i8, i8, u8);

/// A tap is causal when it points at a pixel that raster order visits
/// strictly after the current one: in a later row, or later in the same row.
pub open spec fn tap_is_causal(tap: Tap) -> bool {
    tap.1 > 0 || (tap.1 == 0 && tap.0 > 0)
}

/// A kernel is valid when its divisor is positive and every tap is causal.
pub open spec fn kernel_is_valid(taps: Seq<Tap>, divisor: int) -> bool {
    &&& divisor > 0
    &&& forall|t: int| 0 <= t < taps.len() ==> tap_is_causal(#[trigger] taps[t])
}

/// The sum of the weights of the first `count` taps.
pub open spec fn weight_prefix(taps: Seq<Tap>, count: int) -> int
    decreases count,
{
    if count <= 0 {
        0
    } else {
        weight_prefix(taps, count - 1) + taps[count - 1].2
    }
}

/// The sum of all tap weights.
pub open spec fn total_weight(taps: Seq<Tap>) -> int {
    weight_prefix(taps, taps.len() as int)
}

/// The part of one channel's error that a tap of the given weight carries:
/// `error * weight / divisor`, rounded toward zero.
pub open spec fn share(error: int, weight: int, divisor: int) -> int {
    let product = error * weight;
    if product >= 0 {
        product / divisor
    } else {
        -((-product) / divisor)
    }
}

/// `share` applied to each channel.
pub open spec fn share3(error: Rgb, weight: int, divisor: int) -> Rgb {
    Rgb {
        r: share(error.r, weight, divisor),
        g: share(error.g, weight, divisor),
        b: share(error.b, weight, divisor),
    }
}

/// The sum of what the first `count` taps carry of one channel's error.
pub open spec fn distributed(error: int, taps: Seq<Tap>, divisor: int, count: int) -> int
    decreases count,
{
    if count <= 0 {
        0
    } else {
        distributed(error, taps, divisor, count - 1) + share(
            error,
            taps[count - 1].2 as int,
            divisor,
        )
    }
}

/// How strongly a kernel can amplify an error, as a numerator over its
/// divisor: the larger of the total weight and the divisor. A kernel that
/// spreads no more than it receives has a gain of exactly one.
pub open spec fn gain(taps: Seq<Tap>, divisor: int) -> int {
    if total_weight(taps) > divisor {
        total_weight(taps)
    } else {
        divisor
    }
}

/// An upper bound on the magnitude of the error that can have been carried
/// into a pixel after `pixels` pixels were visited. A pixel's residual is at
/// most what was carried into it plus the width of the channel domain, and
/// what it spreads is at most its residual times the gain.
pub open spec fn worst_carry(taps: Seq<Tap>, divisor: int, pixels: nat) -> int
    decreases pixels,
{
    if pixels == 0 || divisor <= 0 {
        0
    } else {
        ((255 + worst_carry(taps, divisor, (pixels - 1) as nat)) * gain(taps, divisor)) / divisor
    }
}

/// The largest carried error the engine computes with: 2^54.
pub const CARRY_LIMIT: i64 = 0x40_0000_0000_0000;

/// The pass cannot leave the range of the machine integers that hold the
/// carried error. With a kernel that spreads no more than it receives this
/// holds of every image of up to 2^46 pixels.
pub open spec fn diffusion_fits(taps: Seq<Tap>, divisor: int, pixels: nat) -> bool {
    worst_carry(taps, divisor, pixels) <= CARRY_LIMIT
}

/// Checks a kernel once, before any pixel is touched.
pub fn validate_kernel(matrix: &[Tap], portions: u16) -> (valid: bool)
    ensures
        valid == kernel_is_valid(matrix@, portions as int),
{
    if portions == 0 {
        return false;
    }
    let mut t: usize = 0;
    while t < matrix.len()
        invariant
            t <= matrix@.len(),
            forall|j: int| 0 <= j < t ==> tap_is_causal(#[trigger] matrix@[j]),
        decreases matrix@.len() - t,
    {
        let tap = matrix[t];
        if !(tap.1 > 0 || (tap.1 == 0 && tap.0 > 0)) {
            return false;
        }
        t += 1;
    }
    true
}

/// Rounding toward zero loses less than one unit per tap.
proof fn lemma_share_loss(error: int, weight: int, divisor: int)
    requires
        divisor > 0,
        weight >= 0,
        error >= 0,
    ensures
        error * weight - (divisor - 1) <= share(error, weight, divisor) * divisor <= error
            * weight,
        error % divisor == 0 ==> share(error, weight, divisor) * divisor == error * weight,
        share(-error, weight, divisor) == -share(error, weight, divisor),
{
    let product = error * weight;
    assert(product >= 0) by (nonlinear_arith)
        requires
            product == error * weight,
            error >= 0,
            weight >= 0,
    ;
    assert((-error) * weight == -product) by (nonlinear_arith)
        requires
            product == error * weight,
    ;
    vstd::arithmetic::div_mod::lemma_fundamental_div_mod(product, divisor);
    assert(divisor * (product / divisor) == (product / divisor) * divisor) by (nonlinear_arith);
    if error % divisor == 0 {
        vstd::arithmetic::div_mod::lemma_fundamental_div_mod(error, divisor);
        let q = error / divisor;
        assert(product == (q * weight) * divisor) by (nonlinear_arith)
            requires
                product == error * weight,
                error == divisor * q,
        ;
        vstd::arithmetic::div_mod::lemma_div_multiples_vanish(q * weight, divisor);
    }
}

proof fn lemma_distributed_loss(error: int, taps: Seq<Tap>, divisor: int, count: int)
    requires
        divisor > 0,
        error >= 0,
        0 <= count,
    ensures
        error * weight_prefix(taps, count) - count * (divisor - 1) <= distributed(
            error,
            taps,
            divisor,
            count,
        ) * divisor <= error * weight_prefix(taps, count),
        error % divisor == 0 ==> distributed(error, taps, divisor, count) * divisor == error
            * weight_prefix(taps, count),
        distributed(-error, taps, divisor, count) == -distributed(error, taps, divisor, count),
    decreases count,
{
    if count > 0 {
        lemma_distributed_loss(error, taps, divisor, count - 1);
        let w = taps[count - 1].2 as int;
        let before = distributed(error, taps, divisor, count - 1);
        let part = share(error, w, divisor);
        let wp = weight_prefix(taps, count - 1);
        lemma_share_loss(error, w, divisor);
        assert((before + part) * divisor == before * divisor + part * divisor)
            by (nonlinear_arith);
        assert(error * (wp + w) == error * wp + error * w) by (nonlinear_arith);
        assert(count * (divisor - 1) == (count - 1) * (divisor - 1) + (divisor - 1))
            by (nonlinear_arith);
    } else {
        assert(error * 0 == 0) by (nonlinear_arith);
    }
}

/// Error conservation. When the tap weights of a kernel sum to its divisor,
/// what the taps carry of an error adds up to that error again, except for
/// what rounding toward zero loses: less than one unit per tap, never beyond
/// the error, and nothing at all when the divisor divides the error.
pub proof fn lemma_error_conservation(error: int, taps: Seq<Tap>, divisor: int)
    requires
        divisor > 0,
        total_weight(taps) == divisor,
    ensures
        error >= 0 ==> error - taps.len() < distributed(error, taps, divisor, taps.len() as int)
            <= error,
        error <= 0 ==> error <= distributed(error, taps, divisor, taps.len() as int) < error
            + taps.len(),
        error % divisor == 0 ==> distributed(error, taps, divisor, taps.len() as int) == error,
{
    let n = taps.len() as int;
    let magnitude = if error >= 0 {
        error
    } else {
        -error
    };
    lemma_distributed_loss(magnitude, taps, divisor, n);
    let sum = distributed(magnitude, taps, divisor, n);
    assert(n >= 1) by {
        if n == 0 {
            assert(weight_prefix(taps, 0) == 0);
        }
    }
    assert(magnitude - n < sum <= magnitude) by (nonlinear_arith)
        requires
            divisor > 0,
            n >= 1,
            magnitude * divisor - n * (divisor - 1) <= sum * divisor <= magnitude * divisor,
    ;
    if error % divisor == 0 {
        vstd::arithmetic::div_mod::lemma_fundamental_div_mod(error, divisor);
        let q = error / divisor;
        assert(magnitude % divisor == 0) by {
            if error < 0 {
                assert(magnitude == divisor * (-q)) by (nonlinear_arith)
                    requires
                        error == divisor * q,
                        magnitude == -error,
                ;
                vstd::arithmetic::div_mod::lemma_mod_multiples_basic(-q, divisor);
                assert(divisor * (-q) == (-q) * divisor) by (nonlinear_arith);
            }
        }
        assert(sum == magnitude) by (nonlinear_arith)
            requires
                divisor > 0,
                sum * divisor == magnitude * divisor,
        ;
    }
}

/// The weights of a longer prefix sum to at least as much.
pub proof fn lemma_weight_prefix_grows(taps: Seq<Tap>, i: int, j: int)
    requires
        i <= j,
    ensures
        0 <= weight_prefix(taps, i) <= weight_prefix(taps, j),
    decreases j,
{
    if j > 0 {
        if i < j {
            lemma_weight_prefix_grows(taps, i, j - 1);
        } else {
            lemma_weight_prefix_grows(taps, i - 1, j - 1);
        }
    }
}

/// Visiting more pixels can only raise the bound on the carried error, by at
/// least the width of the channel domain for each pixel.
pub proof fn lemma_worst_carry_grows(taps: Seq<Tap>, divisor: int, a: nat, b: nat)
    requires
        divisor > 0,
        a <= b,
    ensures
        0 <= worst_carry(taps, divisor, a) <= worst_carry(taps, divisor, b),
        a < b ==> worst_carry(taps, divisor, a) + 255 <= worst_carry(taps, divisor, b),
    decreases b,
{
    if b > 0 {
        let before = (b - 1) as nat;
        if a < b {
            lemma_worst_carry_grows(taps, divisor, a, before);
        } else {
            lemma_worst_carry_grows(taps, divisor, before, before);
        }
        let m = 255 + worst_carry(taps, divisor, before);
        let g = gain(taps, divisor);
        assert(m * divisor <= m * g) by (nonlinear_arith)
            requires
                m >= 0,
                divisor <= g,
        ;
        vstd::arithmetic::div_mod::lemma_div_is_ordered(m * divisor, m * g, divisor);
        vstd::arithmetic::div_mod::lemma_div_multiples_vanish(m, divisor);
    }
}

/// A kernel that spreads no more than it receives lets the carried error
/// grow by at most the width of the channel domain per pixel.
pub proof fn lemma_worst_carry_unit_gain(taps: Seq<Tap>, divisor: int, pixels: nat)
    requires
        divisor > 0,
        total_weight(taps) <= divisor,
    ensures
        worst_carry(taps, divisor, pixels) == 255 * pixels,
    decreases pixels,
{
    if pixels > 0 {
        lemma_worst_carry_unit_gain(taps, divisor, (pixels - 1) as nat);
        let m = 255 + 255 * (pixels - 1);
        assert(gain(taps, divisor) == divisor);
        assert(m * divisor == divisor * m) by (nonlinear_arith);
        vstd::arithmetic::div_mod::lemma_div_multiples_vanish(m, divisor);
        assert((m * divisor) / divisor == m);
    }
}

/// The sum of all tap weights of a kernel.
pub fn sum_weights(matrix: &[Tap]) -> (total: u128)
    ensures
        total == total_weight(matrix@),
        total <= 255 * matrix@.len(),
{
    let mut total: u128 = 0;
    let mut t: usize = 0;
    let count = matrix.len();
    while t < matrix.len()
        invariant
            t <= matrix@.len(),
            matrix@.len() <= u64::MAX,
            total == weight_prefix(matrix@, t as int),
            total <= 255 * t,
        decreases matrix@.len() - t,
    {
        total = total + matrix[t].2 as u128;
        t += 1;
    }
    total
}

/// Tells whether a pass over `pixels` pixels with this kernel stays within
/// the range of the machine integers that hold the carried error, which is
/// what `diffuse` asks of its caller.
pub fn can_diffuse(matrix: &[Tap], portions: u16, pixels: usize) -> (fits: bool)
    ensures
        fits == diffusion_fits(matrix@, portions as int, pixels as nat),
{
    if portions == 0 {
        return true;
    }
    let count = matrix.len();
    let total = sum_weights(matrix);
    let divisor = portions as u128;
    let ghost taps = matrix@;
    let ghost d = portions as int;
    if total <= divisor {
        proof {
            lemma_worst_carry_unit_gain(taps, d, pixels as nat);
        }
        return 255 * (pixels as u128) <= CARRY_LIMIT as u128;
    }
    let mut carry: u128 = 0;
    let mut visited: usize = 0;
    while visited < pixels
        invariant
            visited <= pixels,
            taps == matrix@,
            d == portions as int,
            d > 0,
            divisor == d,
            total == total_weight(taps),
            total > divisor,
            total <= 255 * u64::MAX,
            carry == worst_carry(taps, d, visited as nat),
            carry <= CARRY_LIMIT,
        decreases pixels - visited,
    {
        assert((255 + carry) * total <= (255 + CARRY_LIMIT) * (255 * u64::MAX)) by (nonlinear_arith)
            requires
                0 <= carry <= CARRY_LIMIT,
                0 <= total <= 255 * u64::MAX,
        ;
        let next = ((255 + carry) * total) / divisor;
        visited += 1;
        if next > CARRY_LIMIT as u128 {
            proof {
                lemma_worst_carry_grows(taps, d, visited as nat, pixels as nat);
            }
            return false;
        }
        carry = next;
    }
    true
}

} // verus!
