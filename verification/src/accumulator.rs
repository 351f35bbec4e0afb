use vstd::prelude::*;
use crate::colour::Rgb;
use crate::image::{lemma_cell_index, lemma_row_in_bounds};
use crate::kernel::{
    gain, lemma_weight_prefix_grows, lemma_worst_carry_grows, share, share3, total_weight,
    weight_prefix, worst_carry,
};
use crate::pass::Pass;

verus! {

impl Pass {
    /// What has reached pixel `p` once every pixel before `k` has spread its
    /// error and pixel `k` has spread its first `t` taps, counted over the
    /// taps below `i`. This is what the accumulator holds during the pass.
    pub open spec fn received(self, p: int, k: int, t: int, i: int) -> Rgb
        decreases i,
    {
        if i <= 0 {
            Rgb::zero()
        } else {
            let before = self.received(p, k, t, i - 1);
            let s = self.origin(p, i - 1);
            if 0 <= s && (s < k || (s == k && i - 1 < t)) {
                before.plus(share3(self.error(s), self.taps[i - 1].2 as int, self.divisor))
            } else {
                before
            }
        }
    }
}

/// When pixel `k` is visited, what has reached it is all that will ever be
/// carried into it.
pub proof fn lemma_settled(pass: Pass, k: int, i: int)
    ensures
        pass.received(k, k, 0, i) == pass.carried(k, i),
    decreases i,
{
    if i > 0 {
        lemma_settled(pass, k, i - 1);
    }
}

/// Finishing pixel `k` is the same as standing before pixel `k + 1`.
pub proof fn lemma_advance(pass: Pass, p: int, k: int, i: int)
    requires
        i <= pass.taps.len(),
    ensures
        pass.received(p, k, pass.taps.len() as int, i) == pass.received(p, k + 1, 0, i),
    decreases i,
{
    if i > 0 {
        lemma_advance(pass, p, k, i - 1);
    }
}

/// Before the first pixel nothing has been received.
pub proof fn lemma_nothing_received(pass: Pass, p: int, i: int)
    ensures
        pass.received(p, 0, 0, i) == Rgb::zero(),
    decreases i,
{
    if i > 0 {
        lemma_nothing_received(pass, p, i - 1);
    }
}

/// Spreading tap `t` of pixel `k` changes what one pixel has received, the
/// one that the tap comes from when seen from there, and adds the tap's share
/// of the residual at `k`.
pub proof fn lemma_push(pass: Pass, p: int, k: int, t: int, i: int)
    requires
        0 <= k,
        0 <= t,
    ensures
        pass.received(p, k, t + 1, i) == if t < i && pass.origin(p, t) == k {
            pass.received(p, k, t, i).plus(
                share3(pass.error(k), pass.taps[t].2 as int, pass.divisor),
            )
        } else {
            pass.received(p, k, t, i)
        },
    decreases i,
{
    if i > 0 {
        lemma_push(pass, p, k, t, i - 1);
    }
}

/// Seen from pixel `p`, tap `t` comes from pixel `k` exactly when, seen from
/// `k`, it points at `p`.
pub proof fn lemma_origin_target(pass: Pass, p: int, k: int, t: int)
    requires
        0 < pass.width,
        0 <= pass.height,
        0 <= p < pass.width * pass.height,
        0 <= k < pass.width * pass.height,
    ensures
        pass.origin(p, t) == k <==> pass.target(k, t) == p,
{
    let w = pass.width;
    let dx = pass.taps[t].0 as int;
    let dy = pass.taps[t].1 as int;
    vstd::arithmetic::div_mod::lemma_fundamental_div_mod(p, w);
    vstd::arithmetic::div_mod::lemma_fundamental_div_mod(k, w);
    assert(p == w * (p / w) + p % w);
    assert(k == w * (k / w) + k % w);
    assert(w * (p / w) == (p / w) * w) by (nonlinear_arith);
    assert(w * (k / w) == (k / w) * w) by (nonlinear_arith);
    lemma_row_in_bounds(p, w, pass.height);
    lemma_row_in_bounds(k, w, pass.height);
    if pass.origin(p, t) == k {
        let x = p % w - dx;
        let y = p / w - dy;
        assert(0 <= x < w && 0 <= y < pass.height);
        lemma_cell_index(x, y, w);
        assert(k % w == x && k / w == y);
    }
    if pass.target(k, t) == p {
        let x = k % w + dx;
        let y = k / w + dy;
        assert(0 <= x < w && 0 <= y < pass.height);
        lemma_cell_index(x, y, w);
        assert(p % w == x && p / w == y);
    }
}

/// A share never exceeds, in magnitude, the error times the weight over the
/// divisor.
pub proof fn lemma_share_bound(error: int, weight: int, divisor: int, m: int)
    requires
        divisor > 0,
        weight >= 0,
        -m <= error <= m,
    ensures
        -(m * weight) <= share(error, weight, divisor) * divisor <= m * weight,
{
    let product = error * weight;
    assert(-(m * weight) <= product <= m * weight) by (nonlinear_arith)
        requires
            product == error * weight,
            weight >= 0,
            -m <= error <= m,
    ;
    if product >= 0 {
        vstd::arithmetic::div_mod::lemma_fundamental_div_mod(product, divisor);
        assert(divisor * (product / divisor) == (product / divisor) * divisor)
            by (nonlinear_arith);
    } else {
        let q = (-product) / divisor;
        vstd::arithmetic::div_mod::lemma_fundamental_div_mod(-product, divisor);
        assert(divisor * q == q * divisor) by (nonlinear_arith);
        assert((-q) * divisor == -(q * divisor)) by (nonlinear_arith);
    }
}

/// A value whose multiple by the divisor is bounded by `m` times a weight
/// that the gain covers is bounded by the next worst-case carry.
proof fn lemma_unscale(v: int, m: int, weight: int, g: int, divisor: int)
    requires
        divisor > 0,
        m >= 0,
        0 <= weight <= g,
        -(m * weight) <= v * divisor <= m * weight,
    ensures
        -((m * g) / divisor) <= v <= (m * g) / divisor,
{
    assert(m * weight <= m * g) by (nonlinear_arith)
        requires
            m >= 0,
            weight <= g,
    ;
    vstd::arithmetic::div_mod::lemma_div_multiples_vanish(v, divisor);
    vstd::arithmetic::div_mod::lemma_div_multiples_vanish(-v, divisor);
    assert((-v) * divisor == -(v * divisor)) by (nonlinear_arith);
    vstd::arithmetic::div_mod::lemma_div_is_ordered(v * divisor, m * g, divisor);
    vstd::arithmetic::div_mod::lemma_div_is_ordered((-v) * divisor, m * g, divisor);
}

impl Pass {
    /// Every residual that can have been spread by the time pixel `k` has
    /// spread `t` of its taps is within `m` of zero.
    pub open spec fn spread_within(self, k: int, t: int, m: int) -> bool {
        forall|s: int| 0 <= s && (s < k || (s == k && t > 0)) ==> (#[trigger] self.error(s)).within(m)
    }
}

/// What a pixel has received is bounded by the largest residual spread so
/// far, times the weights of the taps counted, over the divisor.
pub proof fn lemma_received_scaled(pass: Pass, p: int, k: int, t: int, i: int, m: int)
    requires
        pass.divisor > 0,
        m >= 0,
        pass.spread_within(k, t, m),
    ensures
        -(m * weight_prefix(pass.taps, i)) <= pass.received(p, k, t, i).r * pass.divisor <= m
            * weight_prefix(pass.taps, i),
        -(m * weight_prefix(pass.taps, i)) <= pass.received(p, k, t, i).g * pass.divisor <= m
            * weight_prefix(pass.taps, i),
        -(m * weight_prefix(pass.taps, i)) <= pass.received(p, k, t, i).b * pass.divisor <= m
            * weight_prefix(pass.taps, i),
    decreases i,
{
    if i > 0 {
        lemma_received_scaled(pass, p, k, t, i - 1, m);
        let before = pass.received(p, k, t, i - 1);
        let s = pass.origin(p, i - 1);
        let w = pass.taps[i - 1].2 as int;
        let d = pass.divisor;
        let wp = weight_prefix(pass.taps, i - 1);
        assert(m * (wp + w) == m * wp + m * w) by (nonlinear_arith);
        assert(m * w >= 0) by (nonlinear_arith)
            requires
                m >= 0,
                w >= 0,
        ;
        if 0 <= s && (s < k || (s == k && i - 1 < t)) {
            let e = pass.error(s);
            assert(e.within(m));
            lemma_share_bound(e.r, w, d, m);
            lemma_share_bound(e.g, w, d, m);
            lemma_share_bound(e.b, w, d, m);
            let sh = share3(e, w, d);
            assert((before.r + sh.r) * d == before.r * d + sh.r * d) by (nonlinear_arith);
            assert((before.g + sh.g) * d == before.g * d + sh.g * d) by (nonlinear_arith);
            assert((before.b + sh.b) * d == before.b * d + sh.b * d) by (nonlinear_arith);
        }
    }
}

/// What a pixel has received is within the worst-case carry of the pixels
/// visited so far.
pub proof fn lemma_received_bound(pass: Pass, p: int, k: int, t: int, i: int, visited: nat)
    requires
        pass.divisor > 0,
        0 <= i <= pass.taps.len(),
        visited > 0,
        pass.spread_within(k, t, 255 + worst_carry(pass.taps, pass.divisor, (visited - 1) as nat)),
    ensures
        pass.received(p, k, t, i).within(worst_carry(pass.taps, pass.divisor, visited)),
{
    let taps = pass.taps;
    let d = pass.divisor;
    lemma_worst_carry_grows(taps, d, (visited - 1) as nat, (visited - 1) as nat);
    let m = 255 + worst_carry(taps, d, (visited - 1) as nat);
    lemma_received_scaled(pass, p, k, t, i, m);
    lemma_weight_prefix_grows(taps, i, taps.len() as int);
    lemma_weight_prefix_grows(taps, 0, i);
    let got = pass.received(p, k, t, i);
    let wp = weight_prefix(taps, i);
    let g = gain(taps, d);
    assert(wp <= total_weight(taps) <= g);
    lemma_unscale(got.r, m, wp, g, d);
    lemma_unscale(got.g, m, wp, g, d);
    lemma_unscale(got.b, m, wp, g, d);
}

} // verus!
