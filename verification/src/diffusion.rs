use vstd::prelude::*;
use crate::accumulator::{
    lemma_advance, lemma_nothing_received, lemma_origin_target, lemma_push, lemma_received_bound,
    lemma_settled,
};
use crate::colour::{nearest_entry, Color, Rgb};
use crate::error::DitherError;
use crate::image::{lemma_cell_in_bounds, RgbImage};
use crate::kernel::{
    can_diffuse, diffusion_fits, kernel_is_valid, lemma_worst_carry_grows, share, validate_kernel,
    worst_carry, Tap, CARRY_LIMIT,
};
use crate::pass::{pass_of, Pass};
use crate::pixel::RgbPixel;

verus! {

/// The part of one channel's error that a tap of the given weight carries:
/// `error * weight / divisor`, rounded toward zero.
pub fn share_of(error: i64, weight: u8, divisor: u16) -> (part: i64)
    requires
        divisor > 0,
        -(255 + CARRY_LIMIT) <= error <= 255 + CARRY_LIMIT,
    ensures
        part == share(error as int, weight as int, divisor as int),
        -(255 + CARRY_LIMIT) * 255 <= part <= (255 + CARRY_LIMIT) * 255,
{
    assert(-(255 + CARRY_LIMIT) * 255 <= error * weight <= (255 + CARRY_LIMIT) * 255)
        by (nonlinear_arith)
        requires
            0 <= weight <= 255,
            -(255 + CARRY_LIMIT) <= error <= 255 + CARRY_LIMIT,
    ;
    let product: i64 = error * (weight as i64);
    if product >= 0 {
        let magnitude: u64 = product as u64;
        proof {
            vstd::arithmetic::div_mod::lemma_div_pos_is_pos(product as int, divisor as int);
            vstd::arithmetic::div_mod::lemma_div_is_ordered_by_denominator(
                product as int,
                1,
                divisor as int,
            );
        }
        (magnitude / (divisor as u64)) as i64
    } else {
        let magnitude: u64 = (-product) as u64;
        proof {
            vstd::arithmetic::div_mod::lemma_div_pos_is_pos(-product as int, divisor as int);
            vstd::arithmetic::div_mod::lemma_div_is_ordered_by_denominator(
                -product as int,
                1,
                divisor as int,
            );
        }
        -((magnitude / (divisor as u64)) as i64)
    }
}

/// `result` is what error diffusion owes for these inputs: the error for an
/// invalid kernel, else the error for an empty palette, else the output of
/// the pass as an image of the same shape.
pub open spec fn is_diffusion_of(
    result: Result<RgbImage, DitherError>,
    image: RgbImage,
    matrix: Seq<Tap>,
    portions: int,
    palette: Seq<RgbPixel>,
) -> bool {
    if !kernel_is_valid(matrix, portions) {
        result == Err::<RgbImage, DitherError>(DitherError::InvalidKernel)
    } else if palette.len() == 0 {
        result == Err::<RgbImage, DitherError>(DitherError::EmptyPalette)
    } else {
        &&& result matches Ok(out)
        &&& out.spec_width() == image.spec_width()
        &&& out.spec_height() == image.spec_height()
        &&& out@ == pass_of(image, matrix, portions, palette).output()
    }
}

/// Runs one pass whose kernel and palette are known to be sound.
pub(crate) fn run_pass(image: &RgbImage, matrix: &[Tap], portions: u16, palette: &[RgbPixel]) -> (out:
    RgbImage)
    requires
        pass_of(*image, matrix@, portions as int, palette@).well_formed(),
        diffusion_fits(matrix@, portions as int, image@.len()),
    ensures
        out.spec_width() == image.spec_width(),
        out.spec_height() == image.spec_height(),
        out@ == pass_of(*image, matrix@, portions as int, palette@).output(),
{
    let width = image.width();
    let height = image.height();
    let source = image.pixels();
    let n = source.len();
    let taps_len = matrix.len();
    let ghost pass = pass_of(*image, matrix@, portions as int, palette@);
    let ghost taps = matrix@;
    let ghost d = portions as int;

    let mut acc: Vec<Color> = Vec::new();
    let mut filled: usize = 0;
    while filled < n
        invariant
            filled <= n,
            acc@.len() == filled,
            forall|p: int| 0 <= p < filled ==> (#[trigger] acc@[p])@ == Rgb::zero(),
        decreases n - filled,
    {
        acc.push(Color { red: 0, green: 0, blue: 0 });
        filled += 1;
    }
    proof {
        assert forall|p: int| 0 <= p < n implies (#[trigger] acc@[p])@ == pass.received(
            p,
            0,
            0,
            taps_len as int,
        ) by {
            lemma_nothing_received(pass, p, taps_len as int);
        }
    }

    let mut out: Vec<RgbPixel> = Vec::new();
    let mut k: usize = 0;
    while k < n
        invariant
            k <= n,
            pass == pass_of(*image, matrix@, portions as int, palette@),
            taps == matrix@,
            d == portions as int,
            pass.well_formed(),
            width == image.spec_width(),
            height == image.spec_height(),
            source@ == image@,
            n == source@.len(),
            n == width * height,
            taps_len == matrix@.len(),
            acc@.len() == n,
            out@.len() == k,
            worst_carry(taps, d, n as nat) <= CARRY_LIMIT,
            forall|j: int| 0 <= j < k ==> #[trigger] out@[j] == pass.quantized(j),
            forall|p: int|
                0 <= p < n ==> (#[trigger] acc@[p])@ == pass.received(p, k as int, 0, taps_len as int),
            forall|s: int|
                0 <= s < k ==> (#[trigger] pass.error(s)).within(
                    255 + worst_carry(taps, d, s as nat),
                ),
        decreases n - k,
    {
        assert(width > 0) by (nonlinear_arith)
            requires
                k < n,
                n == width * height,
        ;
        let x = k % width;
        let y = k / width;
        proof {
            lemma_settled(pass, k as int, taps_len as int);
            lemma_worst_carry_grows(taps, d, k as nat, n as nat);
            if k == 0 {
                lemma_nothing_received(pass, 0, taps_len as int);
            } else {
                assert(pass.spread_within(
                    k as int,
                    0,
                    255 + worst_carry(taps, d, (k - 1) as nat),
                )) by {
                    assert forall|s: int| 0 <= s && (s < k || (s == k && 0 > 0)) implies (
                    #[trigger] pass.error(s)).within(
                        255 + worst_carry(taps, d, (k - 1) as nat),
                    ) by {
                        lemma_worst_carry_grows(taps, d, s as nat, (k - 1) as nat);
                    }
                }
                lemma_received_bound(pass, k as int, k as int, 0, taps_len as int, k as nat);
            }
            assert(acc@[k as int]@ == pass.carried(k as int, taps_len as int));
            assert(acc@[k as int]@.within(worst_carry(taps, d, k as nat)));
        }
        let carried = acc[k];
        let src = source[k];
        let effective = Color {
            red: src.0 as i64 + carried.red,
            green: src.1 as i64 + carried.green,
            blue: src.2 as i64 + carried.blue,
        };
        assert(effective@ == pass.effective(k as int));
        let quantized = nearest_entry(effective, palette);
        out.push(quantized.quantized_color);
        let err = quantized.error;
        let ghost m = 255 + worst_carry(taps, d, k as nat);
        proof {
            assert(err@ == pass.error(k as int));
            assert(err@.within(m));
            assert(pass.spread_within(k as int, 1, m)) by {
                assert forall|s: int| 0 <= s && (s < k || (s == k && 1 > 0)) implies (
                #[trigger] pass.error(s)).within(m) by {
                    lemma_worst_carry_grows(taps, d, s as nat, k as nat);
                }
            }
            lemma_worst_carry_grows(taps, d, (k + 1) as nat, n as nat);
        }

        let mut t: usize = 0;
        while t < taps_len
            invariant
                t <= taps_len,
                k < n,
                pass == pass_of(*image, matrix@, portions as int, palette@),
                taps == matrix@,
                d == portions as int,
                pass.well_formed(),
                width == image.spec_width(),
                height == image.spec_height(),
                width > 0,
                n == width * height,
                x == k % width,
                y == k / width,
                taps_len == matrix@.len(),
                acc@.len() == n,
                m == 255 + worst_carry(taps, d, k as nat),
                m <= 255 + CARRY_LIMIT,
                worst_carry(taps, d, (k + 1) as nat) <= CARRY_LIMIT,
                err@ == pass.error(k as int),
                err@.within(m),
                pass.spread_within(k as int, 1, m),
                forall|p: int|
                    0 <= p < n ==> (#[trigger] acc@[p])@ == pass.received(
                        p,
                        k as int,
                        t as int,
                        taps_len as int,
                    ),
            decreases taps_len - t,
        {
            let tap = matrix[t];
            let tx: i128 = x as i128 + tap.0 as i128;
            let ty: i128 = y as i128 + tap.1 as i128;
            let ghost before = acc@;
            if 0 <= tx && tx < width as i128 && 0 <= ty && ty < height as i128 {
                proof {
                    lemma_cell_in_bounds(tx as int, ty as int, width as int, height as int);
                }
                let q: usize = (ty as usize) * width + (tx as usize);
                proof {
                    assert(q as int == pass.target(k as int, t as int));
                    assert(pass.spread_within(k as int, t as int, m));
                    assert(pass.spread_within(k as int, t + 1, m));
                    lemma_received_bound(
                        pass,
                        q as int,
                        k as int,
                        t as int,
                        taps_len as int,
                        (k + 1) as nat,
                    );
                    lemma_received_bound(
                        pass,
                        q as int,
                        k as int,
                        t + 1,
                        taps_len as int,
                        (k + 1) as nat,
                    );
                    lemma_push(pass, q as int, k as int, t as int, taps_len as int);
                    lemma_origin_target(pass, q as int, k as int, t as int);
                }
                let held = acc[q];
                let red = held.red + share_of(err.red, tap.2, portions);
                let green = held.green + share_of(err.green, tap.2, portions);
                let blue = held.blue + share_of(err.blue, tap.2, portions);
                acc.set(q, Color { red, green, blue });
            }
            proof {
                assert forall|p: int| 0 <= p < n implies (#[trigger] acc@[p])@ == pass.received(
                    p,
                    k as int,
                    t + 1,
                    taps_len as int,
                ) by {
                    lemma_push(pass, p, k as int, t as int, taps_len as int);
                    lemma_origin_target(pass, p, k as int, t as int);
                    assert(before[p]@ == pass.received(p, k as int, t as int, taps_len as int));
                }
            }
            t += 1;
        }
        proof {
            assert forall|p: int| 0 <= p < n implies (#[trigger] acc@[p])@ == pass.received(
                p,
                k + 1,
                0,
                taps_len as int,
            ) by {
                lemma_advance(pass, p, k as int, taps_len as int);
            }
        }
        k += 1;
    }
    proof {
        assert(out@ =~= pass.output());
    }
    image.reshaped(out)
}

/// Dithers an image by error diffusion. Pixels are visited once each in
/// raster order; each is quantized together with the error carried into it,
/// and its residual is spread over the pixels its kernel's taps point at.
/// Error that would leave the image is dropped.
///
/// The kernel is checked first, then the palette; on either failure nothing is
/// produced.
pub fn diffuse(image: &RgbImage, matrix: &[Tap], portions: u16, palette: &[RgbPixel]) -> (result:
    Result<RgbImage, DitherError>)
    requires
        diffusion_fits(matrix@, portions as int, image@.len()),
    ensures
        is_diffusion_of(result, *image, matrix@, portions as int, palette@),
{
    if !validate_kernel(matrix, portions) {
        return Err(DitherError::InvalidKernel);
    }
    if palette.len() == 0 {
        return Err(DitherError::EmptyPalette);
    }
    let count = image.pixels().len();
    Ok(run_pass(image, matrix, portions, palette))
}

/// Dithers an image by error diffusion where the pass stays within the
/// machine's integers, and returns `None` where it would not.
pub fn try_diffuse(image: &RgbImage, matrix: &[Tap], portions: u16, palette: &[RgbPixel]) -> (result:
    Option<Result<RgbImage, DitherError>>)
    ensures
        result.is_some() <==> diffusion_fits(matrix@, portions as int, image@.len()),
        result matches Some(r) ==> is_diffusion_of(r, *image, matrix@, portions as int, palette@),
{
    if can_diffuse(matrix, portions, image.pixels().len()) {
        Some(diffuse(image, matrix, portions, palette))
    } else {
        None
    }
}

} // verus!
