use vstd::prelude::*;
use crate::bayer::{
    check_power_of_two, is_ordered_dither_of, is_power_of_two, ordered_dither, DEFAULT_AMPLITUDE,
    MAX_MATRIX_SIZE,
};
use crate::diffusion::{diffuse, is_diffusion_of, run_pass};
use crate::pass::{pass_of, Pass};
use crate::error::DitherError;
use crate::image::{lemma_cell_in_bounds, row_width, RgbImage};
use crate::kernel::{
    diffusion_fits, kernel_is_valid, lemma_worst_carry_unit_gain, total_weight, validate_kernel,
    Tap, CARRY_LIMIT,
};
use crate::pixel::{MonoPixel, RgbPixel};
use crate::table::{
    atkinson, atkinson_taps, lemma_atkinson_kernel,
    basic, basic_taps, lemma_basic_kernel,
    burkes, burkes_taps, lemma_burkes_kernel,
    floyd_steinberg, floyd_steinberg_taps, lemma_floyd_steinberg_kernel,
    jarvis_judice_ninke, jarvis_judice_ninke_taps, lemma_jarvis_judice_ninke_kernel,
    sierra, sierra_taps, lemma_sierra_kernel,
    sierra_lite, sierra_lite_taps, lemma_sierra_lite_kernel,
    sierra_two_row, sierra_two_row_taps, lemma_sierra_two_row_kernel,
    stucki, stucki_taps, lemma_stucki_kernel,
};

verus! {

/// The grey pixel of a given value.
pub open spec fn gray(value: int) -> RgbPixel {
    RgbPixel(value as u8, value as u8, value as u8)
}

/// Every pixel replaced by the grey of the mean of its channels.
pub open spec fn mean_gray(pixels: Seq<RgbPixel>) -> Seq<RgbPixel> {
    Seq::new(pixels.len(), |k: int| gray(MonoPixel::mean_of(pixels[k])))
}

/// Every pixel replaced by the grey of its lightness.
pub open spec fn lightness_gray(pixels: Seq<RgbPixel>) -> Seq<RgbPixel> {
    Seq::new(pixels.len(), |k: int| gray(MonoPixel::lightness_of(pixels[k])))
}

/// The palette of monochrome dithering: black, then white.
pub open spec fn black_and_white() -> Seq<RgbPixel> {
    seq![RgbPixel(0, 0, 0), RgbPixel(255, 255, 255)]
}

/// The pass that monochrome dithering runs: over a grey rendering of the
/// image, to black and white.
pub open spec fn mono_pass(image: RgbImage, source: Seq<RgbPixel>, taps: Seq<Tap>, divisor: int) -> Pass {
    Pass {
        width: image.spec_width() as int,
        height: image.spec_height() as int,
        source,
        taps,
        divisor,
        palette: black_and_white(),
    }
}

/// Renders the image in grey, by lightness or by the mean of the channels.
fn to_gray(image: &RgbImage, by_lightness: bool) -> (out: RgbImage)
    ensures
        out.spec_width() == image.spec_width(),
        out.spec_height() == image.spec_height(),
        out@ == if by_lightness {
            lightness_gray(image@)
        } else {
            mean_gray(image@)
        },
{
    let source = image.pixels();
    let mut pixels: Vec<RgbPixel> = Vec::new();
    let mut k: usize = 0;
    while k < source.len()
        invariant
            k <= source@.len(),
            source@ == image@,
            pixels@.len() == k,
            forall|j: int|
                0 <= j < k ==> #[trigger] pixels@[j] == if by_lightness {
                    gray(MonoPixel::lightness_of(source@[j]))
                } else {
                    gray(MonoPixel::mean_of(source@[j]))
                },
        decreases source@.len() - k,
    {
        let pixel = source[k];
        let mono = if by_lightness {
            MonoPixel::lightness_from(&pixel)
        } else {
            MonoPixel::mono_from(&pixel)
        };
        let value = mono.get();
        pixels.push(RgbPixel(value, value, value));
        k += 1;
    }
    assert(pixels@ =~= if by_lightness {
        lightness_gray(image@)
    } else {
        mean_gray(image@)
    });
    image.reshaped(pixels)
}

/// Dithers a grey rendering of the image to black and white.
fn mono_dither(image: &RgbImage, matrix: &[Tap], portions: u16, by_lightness: bool) -> (out:
    RgbImage)
    requires
        kernel_is_valid(matrix@, portions as int),
        diffusion_fits(matrix@, portions as int, image@.len()),
    ensures
        out.spec_width() == image.spec_width(),
        out.spec_height() == image.spec_height(),
        out@ == mono_pass(
            *image,
            if by_lightness {
                lightness_gray(image@)
            } else {
                mean_gray(image@)
            },
            matrix@,
            portions as int,
        ).output(),
{
    let gray_image = to_gray(image, by_lightness);
    let palette: Vec<RgbPixel> = vec![RgbPixel(0, 0, 0), RgbPixel(255, 255, 255)];
    assert(palette@ =~= black_and_white());
    let count = image.pixels().len();
    let count_gray = gray_image.pixels().len();
    run_pass(&gray_image, matrix, portions, palette.as_slice())
}

/// Dithers the image to black and white with the Floyd-Steinberg kernel. Each
/// pixel is first reduced to the mean of its channels.
pub fn floyd_steinberg_mono_dither(image: RgbImage) -> (out: RgbImage)
    requires
        255 * image@.len() <= CARRY_LIMIT,
    ensures
        out.spec_width() == image.spec_width(),
        out.spec_height() == image.spec_height(),
        out@ == mono_pass(image, mean_gray(image@), floyd_steinberg_taps(), 16).output(),
{
    let kernel = floyd_steinberg();
    proof {
        lemma_floyd_steinberg_kernel();
        lemma_worst_carry_unit_gain(floyd_steinberg_taps(), 16, image@.len());
    }
    mono_dither(&image, kernel.matrix.as_slice(), kernel.portions, false)
}

/// Dithers the image to black and white with the Jarvis-Judice-Ninke kernel. Each
/// pixel is first reduced to the mean of its channels.
pub fn jarvis_judice_ninke_mono_dither(image: RgbImage) -> (out: RgbImage)
    requires
        255 * image@.len() <= CARRY_LIMIT,
    ensures
        out.spec_width() == image.spec_width(),
        out.spec_height() == image.spec_height(),
        out@ == mono_pass(image, mean_gray(image@), jarvis_judice_ninke_taps(), 48).output(),
{
    let kernel = jarvis_judice_ninke();
    proof {
        lemma_jarvis_judice_ninke_kernel();
        lemma_worst_carry_unit_gain(jarvis_judice_ninke_taps(), 48, image@.len());
    }
    mono_dither(&image, kernel.matrix.as_slice(), kernel.portions, false)
}

/// Dithers the image to black and white with the Atkinson kernel. Each
/// pixel is first reduced to the mean of its channels.
pub fn atkinson_mono_dither(image: RgbImage) -> (out: RgbImage)
    requires
        255 * image@.len() <= CARRY_LIMIT,
    ensures
        out.spec_width() == image.spec_width(),
        out.spec_height() == image.spec_height(),
        out@ == mono_pass(image, mean_gray(image@), atkinson_taps(), 8).output(),
{
    let kernel = atkinson();
    proof {
        lemma_atkinson_kernel();
        lemma_worst_carry_unit_gain(atkinson_taps(), 8, image@.len());
    }
    mono_dither(&image, kernel.matrix.as_slice(), kernel.portions, false)
}

/// Dithers the image to black and white with the Burkes kernel. Each
/// pixel is first reduced to the mean of its channels.
pub fn burkes_mono_dither(image: RgbImage) -> (out: RgbImage)
    requires
        255 * image@.len() <= CARRY_LIMIT,
    ensures
        out.spec_width() == image.spec_width(),
        out.spec_height() == image.spec_height(),
        out@ == mono_pass(image, mean_gray(image@), burkes_taps(), 32).output(),
{
    let kernel = burkes();
    proof {
        lemma_burkes_kernel();
        lemma_worst_carry_unit_gain(burkes_taps(), 32, image@.len());
    }
    mono_dither(&image, kernel.matrix.as_slice(), kernel.portions, false)
}

/// Dithers the image to black and white with the Stucki kernel. Each
/// pixel is first reduced to the mean of its channels.
pub fn stucki_mono_dither(image: RgbImage) -> (out: RgbImage)
    requires
        255 * image@.len() <= CARRY_LIMIT,
    ensures
        out.spec_width() == image.spec_width(),
        out.spec_height() == image.spec_height(),
        out@ == mono_pass(image, mean_gray(image@), stucki_taps(), 42).output(),
{
    let kernel = stucki();
    proof {
        lemma_stucki_kernel();
        lemma_worst_carry_unit_gain(stucki_taps(), 42, image@.len());
    }
    mono_dither(&image, kernel.matrix.as_slice(), kernel.portions, false)
}

/// Dithers the image to black and white with the Sierra kernel. Each
/// pixel is first reduced to the mean of its channels.
pub fn sierra_mono_dither(image: RgbImage) -> (out: RgbImage)
    requires
        255 * image@.len() <= CARRY_LIMIT,
    ensures
        out.spec_width() == image.spec_width(),
        out.spec_height() == image.spec_height(),
        out@ == mono_pass(image, mean_gray(image@), sierra_taps(), 32).output(),
{
    let kernel = sierra();
    proof {
        lemma_sierra_kernel();
        lemma_worst_carry_unit_gain(sierra_taps(), 32, image@.len());
    }
    mono_dither(&image, kernel.matrix.as_slice(), kernel.portions, false)
}

/// Dithers the image to black and white with the two-row Sierra kernel. Each
/// pixel is first reduced to the mean of its channels.
pub fn two_row_sierra_mono_dither(image: RgbImage) -> (out: RgbImage)
    requires
        255 * image@.len() <= CARRY_LIMIT,
    ensures
        out.spec_width() == image.spec_width(),
        out.spec_height() == image.spec_height(),
        out@ == mono_pass(image, mean_gray(image@), sierra_two_row_taps(), 16).output(),
{
    let kernel = sierra_two_row();
    proof {
        lemma_sierra_two_row_kernel();
        lemma_worst_carry_unit_gain(sierra_two_row_taps(), 16, image@.len());
    }
    mono_dither(&image, kernel.matrix.as_slice(), kernel.portions, false)
}

/// Dithers the image to black and white with the Sierra Lite kernel. Each
/// pixel is first reduced to the mean of its channels.
pub fn sierra_lite_mono_dither(image: RgbImage) -> (out: RgbImage)
    requires
        255 * image@.len() <= CARRY_LIMIT,
    ensures
        out.spec_width() == image.spec_width(),
        out.spec_height() == image.spec_height(),
        out@ == mono_pass(image, mean_gray(image@), sierra_lite_taps(), 4).output(),
{
    let kernel = sierra_lite();
    proof {
        lemma_sierra_lite_kernel();
        lemma_worst_carry_unit_gain(sierra_lite_taps(), 4, image@.len());
    }
    mono_dither(&image, kernel.matrix.as_slice(), kernel.portions, false)
}

/// Dithers the image in place to black and white with the given kernel. Each
/// pixel is first reduced to its lightness. When the kernel is refused the
/// image is left as it was.
pub fn error_propagate_through_pixels(
    image: &mut RgbImage,
    matrix: &[Tap],
    total_portions: u16,
) -> (result: Result<(), DitherError>)
    requires
        diffusion_fits(matrix@, total_portions as int, old(image)@.len()),
    ensures
        final(image).spec_width() == old(image).spec_width(),
        final(image).spec_height() == old(image).spec_height(),
        !kernel_is_valid(matrix@, total_portions as int) ==> result == Err::<(), DitherError>(
            DitherError::InvalidKernel,
        ) && final(image)@ == old(image)@,
        kernel_is_valid(matrix@, total_portions as int) ==> result == Ok::<(), DitherError>(())
            && final(image)@ == mono_pass(
            *old(image),
            lightness_gray(old(image)@),
            matrix@,
            total_portions as int,
        ).output(),
{
    if !validate_kernel(matrix, total_portions) {
        return Err(DitherError::InvalidKernel);
    }
    let out = mono_dither(image, matrix, total_portions, true);
    *image = out;
    Ok(())
}

/// Dithers the image in place to the palette with the given kernel. On an
/// error the image is left as it was.
pub fn error_propagate_through_pixels_rgb(
    image: &mut RgbImage,
    matrix: &[Tap],
    total_portions: u16,
    palette: &[RgbPixel],
) -> (result: Result<(), DitherError>)
    requires
        diffusion_fits(matrix@, total_portions as int, old(image)@.len()),
    ensures
        final(image).spec_width() == old(image).spec_width(),
        final(image).spec_height() == old(image).spec_height(),
        !kernel_is_valid(matrix@, total_portions as int) ==> result == Err::<(), DitherError>(
            DitherError::InvalidKernel,
        ) && final(image)@ == old(image)@,
        kernel_is_valid(matrix@, total_portions as int) && palette@.len() == 0 ==> result
            == Err::<(), DitherError>(DitherError::EmptyPalette) && final(image)@ == old(image)@,
        kernel_is_valid(matrix@, total_portions as int) && palette@.len() > 0 ==> result == Ok::<
            (),
            DitherError,
        >(()) && final(image)@ == pass_of(
            *old(image),
            matrix@,
            total_portions as int,
            palette@,
        ).output(),
{
    match diffuse(image, matrix, total_portions, palette) {
        Ok(out) => {
            *image = out;
            Ok(())
        },
        Err(e) => Err(e),
    }
}

/// Dithers the image in place with the basic kernel, which hands the whole
/// error to the next pixel of the row.
pub fn basic_dither(image: &mut RgbImage, palette: &[RgbPixel]) -> (result: Result<
    (),
    DitherError,
>)
    requires
        255 * old(image)@.len() <= CARRY_LIMIT,
    ensures
        final(image).spec_width() == old(image).spec_width(),
        final(image).spec_height() == old(image).spec_height(),
        palette@.len() == 0 ==> result == Err::<(), DitherError>(DitherError::EmptyPalette)
            && final(image)@ == old(image)@,
        palette@.len() > 0 ==> result == Ok::<(), DitherError>(()) && final(image)@
            == pass_of(*old(image), basic_taps(), 1, palette@).output(),
{
    let kernel = basic();
    proof {
        lemma_basic_kernel();
        lemma_worst_carry_unit_gain(basic_taps(), 1, image@.len());
    }
    error_propagate_through_pixels_rgb(image, kernel.matrix.as_slice(), kernel.portions, palette)
}

/// A dithering algorithm together with the palette it dithers to.
pub enum Dither {
    /// The basic error propagation method. It gives the worst output.
    Basic(Vec<RgbPixel>),
    /// Floyd-Steinberg dithering.
    FloydSteinberg(Vec<RgbPixel>),
    /// Jarvis-Judice-Ninke dithering.
    JarvisJudiceNinke(Vec<RgbPixel>),
    /// Stucki dithering.
    Stucki(Vec<RgbPixel>),
    /// Atkinson dithering.
    Atkinson(Vec<RgbPixel>),
    /// Burkes dithering.
    Burkes(Vec<RgbPixel>),
    /// Sierra dithering.
    Sierra(Vec<RgbPixel>),
    /// Two-row Sierra dithering.
    SierraTwoRow(Vec<RgbPixel>),
    /// Sierra Lite dithering.
    SierraLite(Vec<RgbPixel>),
    /// Ordered dithering, with the size of the threshold matrix. A size of 1
    /// gives no pattern.
    Bayer(usize, Vec<RgbPixel>),
}

impl Dither {
    /// The palette that the algorithm carries.
    pub open spec fn palette(self) -> Seq<RgbPixel> {
        match self {
            Dither::Basic(p) => p@,
            Dither::FloydSteinberg(p) => p@,
            Dither::JarvisJudiceNinke(p) => p@,
            Dither::Stucki(p) => p@,
            Dither::Atkinson(p) => p@,
            Dither::Burkes(p) => p@,
            Dither::Sierra(p) => p@,
            Dither::SierraTwoRow(p) => p@,
            Dither::SierraLite(p) => p@,
            Dither::Bayer(_, p) => p@,
        }
    }

    /// The taps of the algorithm's kernel; none for ordered dithering.
    pub open spec fn taps(self) -> Seq<Tap> {
        match self {
            Dither::Basic(_) => basic_taps(),
            Dither::FloydSteinberg(_) => floyd_steinberg_taps(),
            Dither::JarvisJudiceNinke(_) => jarvis_judice_ninke_taps(),
            Dither::Stucki(_) => stucki_taps(),
            Dither::Atkinson(_) => atkinson_taps(),
            Dither::Burkes(_) => burkes_taps(),
            Dither::Sierra(_) => sierra_taps(),
            Dither::SierraTwoRow(_) => sierra_two_row_taps(),
            Dither::SierraLite(_) => sierra_lite_taps(),
            Dither::Bayer(_, _) => Seq::empty(),
        }
    }

    /// The divisor of the algorithm's kernel; 1 for ordered dithering.
    pub open spec fn portions(self) -> int {
        match self {
            Dither::Basic(_) => 1,
            Dither::FloydSteinberg(_) => 16,
            Dither::JarvisJudiceNinke(_) => 48,
            Dither::Stucki(_) => 42,
            Dither::Atkinson(_) => 8,
            Dither::Burkes(_) => 32,
            Dither::Sierra(_) => 32,
            Dither::SierraTwoRow(_) => 16,
            Dither::SierraLite(_) => 4,
            Dither::Bayer(_, _) => 1,
        }
    }

    /// The algorithm stays within the machine limits on an image of so many
    /// pixels.
    pub open spec fn fits_pixels(self, pixels: nat) -> bool {
        match self {
            Dither::Bayer(n, _) => is_power_of_two(n as nat) ==> n <= MAX_MATRIX_SIZE,
            _ => 255 * pixels <= CARRY_LIMIT,
        }
    }

    /// The algorithm stays within the machine limits on this image.
    pub open spec fn fits(self, image: RgbImage) -> bool {
        self.fits_pixels(image@.len())
    }

    /// `result` is what the algorithm owes for the image.
    pub open spec fn yields(self, image: RgbImage, result: Result<RgbImage, DitherError>) -> bool {
        match self {
            Dither::Bayer(n, p) => is_ordered_dither_of(
                result,
                image,
                n,
                DEFAULT_AMPLITUDE as int,
                p@,
            ),
            _ => is_diffusion_of(result, image, self.taps(), self.portions(), self.palette()),
        }
    }
}

/// Runs a kernel of the table with a palette.
fn run_table_kernel(
    image: &RgbImage,
    kernel: &crate::propagator::ErrorPropagator<crate::propagator::Base>,
    palette: &Vec<RgbPixel>,
) -> (result: Result<RgbImage, DitherError>)
    requires
        total_weight(kernel.matrix@) <= kernel.portions,
        kernel.portions > 0,
        255 * image@.len() <= CARRY_LIMIT,
    ensures
        is_diffusion_of(result, *image, kernel.matrix@, kernel.portions as int, palette@),
{
    proof {
        lemma_worst_carry_unit_gain(kernel.matrix@, kernel.portions as int, image@.len());
    }
    diffuse(image, kernel.matrix.as_slice(), kernel.portions, palette.as_slice())
}

/// Dithers an image with an algorithm and the palette it carries.
pub fn run_through(image: &RgbImage, algorithm: &Dither) -> (result: Result<RgbImage, DitherError>)
    requires
        algorithm.fits(*image),
    ensures
        algorithm.yields(*image, result),
{
    proof {
        lemma_basic_kernel();
        lemma_floyd_steinberg_kernel();
        lemma_jarvis_judice_ninke_kernel();
        lemma_stucki_kernel();
        lemma_atkinson_kernel();
        lemma_burkes_kernel();
        lemma_sierra_kernel();
        lemma_sierra_two_row_kernel();
        lemma_sierra_lite_kernel();
    }
    match algorithm {
        Dither::Basic(palette) => run_table_kernel(image, &basic(), palette),
        Dither::FloydSteinberg(palette) => run_table_kernel(image, &floyd_steinberg(), palette),
        Dither::JarvisJudiceNinke(palette) => run_table_kernel(
            image,
            &jarvis_judice_ninke(),
            palette,
        ),
        Dither::Stucki(palette) => run_table_kernel(image, &stucki(), palette),
        Dither::Atkinson(palette) => run_table_kernel(image, &atkinson(), palette),
        Dither::Burkes(palette) => run_table_kernel(image, &burkes(), palette),
        Dither::Sierra(palette) => run_table_kernel(image, &sierra(), palette),
        Dither::SierraTwoRow(palette) => run_table_kernel(image, &sierra_two_row(), palette),
        Dither::SierraLite(palette) => run_table_kernel(image, &sierra_lite(), palette),
        Dither::Bayer(n, palette) => ordered_dither(
            image,
            *n,
            palette.as_slice(),
            DEFAULT_AMPLITUDE,
        ),
    }
}

/// Dithers an image with an algorithm where that stays within the machine
/// limits, and returns `None` where it would not.
pub fn try_run_through(image: &RgbImage, algorithm: &Dither) -> (result: Option<
    Result<RgbImage, DitherError>,
>)
    ensures
        result.is_some() <==> algorithm.fits(*image),
        result matches Some(r) ==> algorithm.yields(*image, r),
{
    let fits = match algorithm {
        Dither::Bayer(n, _) => !check_power_of_two(*n) || *n <= MAX_MATRIX_SIZE,
        _ => {
            let count = image.pixels().len();
            255 * (count as u128) <= CARRY_LIMIT as u128
        },
    };
    if fits {
        Some(run_through(image, algorithm))
    } else {
        None
    }
}

/// The colour in column `x` of row `y` of an image held as rows of RGBA
/// bytes; black where the row is too short.
pub open spec fn rgba_colour(rows: Vec<Vec<[u8; 4]>>, x: int, y: int) -> RgbPixel {
    if x < rows@[y]@.len() {
        RgbPixel(rows@[y]@[x][0], rows@[y]@[x][1], rows@[y]@[x][2])
    } else {
        RgbPixel(0, 0, 0)
    }
}

/// The alpha value in column `x` of row `y`; 0 where the row is too short.
pub open spec fn rgba_alpha(rows: Vec<Vec<[u8; 4]>>, x: int, y: int) -> u8 {
    if x < rows@[y]@.len() {
        rows@[y]@[x][3]
    } else {
        0
    }
}

/// `image` and `alpha` hold the colours and the alpha values of `rows`, as
/// wide as the first row.
pub open spec fn is_split_of(image: RgbImage, alpha: Seq<u8>, rows: Vec<Vec<[u8; 4]>>) -> bool {
    &&& image.spec_width() == row_width(rows)
    &&& image.spec_height() == rows@.len()
    &&& image@.len() == row_width(rows) * rows@.len()
    &&& alpha.len() == image@.len()
    &&& forall|y: int, x: int|
        0 <= y < rows@.len() && 0 <= x < row_width(rows) ==> #[trigger] image@[y * row_width(rows)
            + x] == rgba_colour(rows, x, y)
    &&& forall|y: int, x: int|
        0 <= y < rows@.len() && 0 <= x < row_width(rows) ==> #[trigger] alpha[y * row_width(rows)
            + x] == rgba_alpha(rows, x, y)
}

/// `rows` hold the colours of `image` with the alpha values of `alpha`.
pub open spec fn is_merge_of(rows: Vec<Vec<[u8; 4]>>, image: RgbImage, alpha: Seq<u8>) -> bool {
    &&& rows@.len() == image.spec_height()
    &&& forall|y: int| 0 <= y < rows@.len() ==> (#[trigger] rows@[y])@.len() == image.spec_width()
    &&& forall|y: int, x: int|
        0 <= y < image.spec_height() && 0 <= x < image.spec_width() ==> {
            &&& (#[trigger] rows@[y]@[x])[0] == image.at(x, y).0
            &&& rows@[y]@[x][1] == image.at(x, y).1
            &&& rows@[y]@[x][2] == image.at(x, y).2
            &&& rows@[y]@[x][3] == alpha[y * image.spec_width() + x]
        }
}

/// Parts an image held as rows of RGBA bytes into its colours and its alpha
/// values. `None` when the pixels cannot be counted in a `usize`.
pub fn split_alpha(rows: &Vec<Vec<[u8; 4]>>) -> (parts: Option<(RgbImage, Vec<u8>)>)
    ensures
        parts.is_some() <==> row_width(*rows) * rows@.len() <= usize::MAX,
        parts matches Some((image, alpha)) ==> is_split_of(image, alpha@, *rows),
{
    let height = rows.len();
    let width = if height == 0 {
        0
    } else {
        rows[0].len()
    };
    let count = match width.checked_mul(height) {
        Some(count) => count,
        None => {
            return None;
        },
    };
    let mut pixels: Vec<RgbPixel> = Vec::new();
    let mut alpha: Vec<u8> = Vec::new();
    let mut y: usize = 0;
    while y < height
        invariant
            y <= height,
            height == rows@.len(),
            width == row_width(*rows),
            count == width * height,
            pixels@.len() == y * width,
            alpha@.len() == y * width,
            forall|j: int, x: int|
                0 <= j < y && 0 <= x < width ==> #[trigger] pixels@[j * width + x] == rgba_colour(
                    *rows,
                    x,
                    j,
                ),
            forall|j: int, x: int|
                0 <= j < y && 0 <= x < width ==> #[trigger] alpha@[j * width + x] == rgba_alpha(
                    *rows,
                    x,
                    j,
                ),
        decreases height - y,
    {
        let row = &rows[y];
        let ghost pixels_before = pixels@;
        let ghost alpha_before = alpha@;
        let mut x: usize = 0;
        while x < width
            invariant
                x <= width,
                y < height,
                row@ == rows@[y as int]@,
                pixels@.len() == y * width + x,
                alpha@.len() == y * width + x,
                pixels_before.len() == y * width,
                alpha_before.len() == y * width,
                forall|i: int| 0 <= i < pixels_before.len() ==> pixels@[i] == pixels_before[i],
                forall|i: int| 0 <= i < alpha_before.len() ==> alpha@[i] == alpha_before[i],
                forall|i: int|
                    0 <= i < x ==> #[trigger] pixels@[y * width + i] == rgba_colour(*rows, i, y as int),
                forall|i: int|
                    0 <= i < x ==> #[trigger] alpha@[y * width + i] == rgba_alpha(*rows, i, y as int),
            decreases width - x,
        {
            if x < row.len() {
                let channels = row[x];
                pixels.push(RgbPixel(channels[0], channels[1], channels[2]));
                alpha.push(channels[3]);
            } else {
                pixels.push(RgbPixel(0, 0, 0));
                alpha.push(0);
            }
            x += 1;
        }
        proof {
            assert((y + 1) * width == y * width + width) by (nonlinear_arith);
            assert(width * y == y * width) by (nonlinear_arith);
            assert forall|j: int, i: int| 0 <= j < y + 1 && 0 <= i < width implies #[trigger] pixels@[j
                * width + i] == rgba_colour(*rows, i, j) by {
                if j < y {
                    lemma_cell_in_bounds(i, j, width as int, y as int);
                    assert(pixels@[j * width + i] == pixels_before[j * width + i]);
                }
            }
            assert forall|j: int, i: int| 0 <= j < y + 1 && 0 <= i < width implies #[trigger] alpha@[j
                * width + i] == rgba_alpha(*rows, i, j) by {
                if j < y {
                    lemma_cell_in_bounds(i, j, width as int, y as int);
                    assert(alpha@[j * width + i] == alpha_before[j * width + i]);
                }
            }
        }
        y += 1;
    }
    assert(width * height == height * width) by (nonlinear_arith);
    match RgbImage::from_pixels(width, height, pixels) {
        Some(image) => Some((image, alpha)),
        None => None,
    }
}

/// Joins colours and alpha values into an image held as rows of RGBA bytes.
pub fn merge_alpha(image: &RgbImage, alpha: &Vec<u8>) -> (rows: Vec<Vec<[u8; 4]>>)
    requires
        alpha@.len() == image@.len(),
    ensures
        is_merge_of(rows, *image, alpha@),
{
    let width = image.width();
    let height = image.height();
    let pixels = image.pixels();
    let count = pixels.len();
    let mut rows: Vec<Vec<[u8; 4]>> = Vec::new();
    let mut y: usize = 0;
    while y < height
        invariant
            y <= height,
            width == image.spec_width(),
            height == image.spec_height(),
            pixels@ == image@,
            count == pixels@.len(),
            pixels@.len() == width * height,
            alpha@.len() == pixels@.len(),
            rows@.len() == y,
            forall|j: int| 0 <= j < y ==> (#[trigger] rows@[j])@.len() == width,
            forall|j: int, x: int|
                0 <= j < y && 0 <= x < width ==> {
                    &&& (#[trigger] rows@[j]@[x])[0] == image.at(x, j).0
                    &&& rows@[j]@[x][1] == image.at(x, j).1
                    &&& rows@[j]@[x][2] == image.at(x, j).2
                    &&& rows@[j]@[x][3] == alpha@[j * width + x]
                },
        decreases height - y,
    {
        let mut row: Vec<[u8; 4]> = Vec::new();
        let mut x: usize = 0;
        while x < width
            invariant
                x <= width,
                y < height,
                width == image.spec_width(),
                pixels@ == image@,
                count == pixels@.len(),
                pixels@.len() == width * height,
                alpha@.len() == pixels@.len(),
                row@.len() == x,
                forall|i: int|
                    0 <= i < x ==> {
                        &&& (#[trigger] row@[i])[0] == image.at(i, y as int).0
                        &&& row@[i][1] == image.at(i, y as int).1
                        &&& row@[i][2] == image.at(i, y as int).2
                        &&& row@[i][3] == alpha@[y * width + i]
                    },
            decreases width - x,
        {
            proof {
                lemma_cell_in_bounds(x as int, y as int, width as int, height as int);
            }
            let p = pixels[y * width + x];
            let a = alpha[y * width + x];
            row.push([p.0, p.1, p.2, a]);
            x += 1;
        }
        rows.push(row);
        y += 1;
    }
    rows
}

/// What dithering the colours of `rows` owes: the error of the algorithm, or
/// its output with the alpha values of `rows` put back.
pub open spec fn is_rgba_dither_of(
    result: Result<Vec<Vec<[u8; 4]>>, DitherError>,
    rows: Vec<Vec<[u8; 4]>>,
    algorithm: Dither,
) -> bool {
    exists|image: RgbImage, alpha: Seq<u8>, dithered: Result<RgbImage, DitherError>|
        {
            &&& #[trigger] is_split_of(image, alpha, rows)
            &&& #[trigger] algorithm.yields(image, dithered)
            &&& match dithered {
                Ok(out) => result matches Ok(merged) && is_merge_of(merged, out, alpha),
                Err(e) => result == Err::<Vec<Vec<[u8; 4]>>, DitherError>(e),
            }
        }
}

/// Dithers the colours of an image held as rows of RGBA bytes and keeps its
/// alpha values. The image is as wide as its first row: shorter rows count as
/// transparent black beyond their end, longer rows are cut. `None` where the
/// image is beyond the machine limits of the algorithm.
pub fn run_through_rgba(rows: &Vec<Vec<[u8; 4]>>, algorithm: &Dither) -> (result: Option<
    Result<Vec<Vec<[u8; 4]>>, DitherError>,
>)
    ensures
        result.is_some() <==> row_width(*rows) * rows@.len() <= usize::MAX && algorithm.fits_pixels(
            row_width(*rows) * rows@.len(),
        ),
        result matches Some(r) ==> is_rgba_dither_of(r, *rows, *algorithm),
{
    let (image, alpha) = match split_alpha(rows) {
        Some(parts) => parts,
        None => {
            return None;
        },
    };
    match try_run_through(&image, algorithm) {
        Some(Ok(out)) => {
            let count = out.pixels().len();
            let merged = merge_alpha(&out, &alpha);
            proof {
                assert(algorithm.yields(image, Ok::<RgbImage, DitherError>(out)));
            }
            Some(Ok(merged))
        },
        Some(Err(e)) => {
            proof {
                assert(algorithm.yields(image, Err::<RgbImage, DitherError>(e)));
            }
            Some(Err(e))
        },
        None => None,
    }
}

} // verus!
