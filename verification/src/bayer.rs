use vstd::prelude::*;
use vstd::pervasive::unreached;
use crate::colour::{nearest, nearest_entry, Color, Rgb};
use crate::error::DitherError;
use crate::image::{lemma_cell_in_bounds, RgbImage};
use crate::kernel::share;
use crate::pixel::RgbPixel;

verus! {

/// The largest matrix size that can be built: 2^15, so that the matrix has at
/// most 2^30 cells.
pub const MAX_MATRIX_SIZE: usize = 0x8000;

/// The amplitude that `Bayer::new` sets: a third of the channel range.
pub const DEFAULT_AMPLITUDE: u16 = 85;

/// A rectangular block of integers in row-major order.
pub(crate) struct Grid {
    pub rows: usize,
    pub cols: usize,
    pub cells: Vec<u64>,
}

impl Grid {
    pub(crate) open spec fn well_formed(self) -> bool {
        self.cells@.len() == self.rows * self.cols
    }

    /// The cell in row `r` and column `c`.
    pub(crate) open spec fn at(self, r: int, c: int) -> u64 {
        self.cells@[r * self.cols + c]
    }
}

/// Two blocks can be joined along an axis: they are not empty, they agree in
/// the other axis, and together they have at most 2^30 cells.
pub(crate) open spec fn stackable(axis: usize, first: Grid, second: Grid) -> bool {
    &&& first.well_formed()
    &&& second.well_formed()
    &&& first.rows > 0 && first.cols > 0 && second.rows > 0 && second.cols > 0
    &&& first.cells@.len() + second.cells@.len() <= 0x4000_0000
    &&& (axis == 0 && first.cols == second.cols) || (axis == 1 && first.rows == second.rows)
}

/// Joins two blocks with `ndarray::concatenate`, along axis 0 (the second
/// block below the first) or axis 1 (the second to the right of the first).
/// The claim, which rests on ndarray and is not proved here: blocks that can
/// be joined are joined, and the result holds the cells of the first block
/// where they were and those of the second shifted by the first block's
/// length along the axis.
#[verifier::external_body]
fn stack_blocks(axis: usize, first: &Grid, second: &Grid) -> (joined: Option<Grid>)
    ensures
        stackable(axis, *first, *second) ==> joined.is_some(),
        joined matches Some(block) ==> {
            &&& block.well_formed()
            &&& axis == 0 ==> {
                &&& block.rows == first.rows + second.rows
                &&& block.cols == first.cols
                &&& forall|r: int, c: int|
                    0 <= r < block.rows && 0 <= c < block.cols ==> #[trigger] block.at(r, c) == if r
                        < first.rows {
                        first.at(r, c)
                    } else {
                        second.at(r - first.rows, c)
                    }
            }
            &&& axis == 1 ==> {
                &&& block.rows == first.rows
                &&& block.cols == first.cols + second.cols
                &&& forall|r: int, c: int|
                    0 <= r < block.rows && 0 <= c < block.cols ==> #[trigger] block.at(r, c) == if c
                        < first.cols {
                        first.at(r, c)
                    } else {
                        second.at(r, c - first.cols)
                    }
            }
        },
{
    let a = ndarray::ArrayView2::from_shape((first.rows, first.cols), first.cells.as_slice()).ok()?;
    let b = ndarray::ArrayView2::from_shape((second.rows, second.cols), second.cells.as_slice()).ok()?;
    let joined = ndarray::concatenate(ndarray::Axis(axis), &[a, b]).ok()?;
    Some(Grid { rows: joined.nrows(), cols: joined.ncols(), cells: joined.iter().copied().collect() })
}

/// `n` is 1, 2, 4, 8, ...
pub open spec fn is_power_of_two(n: nat) -> bool
    decreases n,
{
    n == 1 || (n > 1 && n % 2 == 0 && is_power_of_two(n / 2))
}

/// What a quadrant adds to the entries of the matrix of half the size: 0 at
/// the top left, 2 at the top right, 3 at the bottom left, 1 at the bottom
/// right.
pub open spec fn quadrant(lower: int, right: int) -> int {
    if lower == 0 {
        if right == 0 {
            0
        } else {
            2
        }
    } else {
        if right == 0 {
            3
        } else {
            1
        }
    }
}

/// The numerator of the threshold in row `r` and column `c` of the matrix of
/// the given size; the threshold itself is this over `size * size`. The
/// matrix of size 1 is `[[0]]`. The matrix of size `2h` holds four copies of
/// the matrix of size `h`, each entry multiplied by four, with the
/// quadrant's number added.
pub open spec fn bayer_value(size: nat, r: int, c: int) -> int
    decreases size,
{
    if size <= 1 {
        0
    } else {
        let h = (size / 2) as int;
        4 * bayer_value((size / 2) as nat, r % h, c % h) + quadrant(r / h, c / h)
    }
}

/// Every threshold lies in [0, 1): its numerator is below `size * size`.
pub proof fn lemma_bayer_range(size: nat, r: int, c: int)
    requires
        is_power_of_two(size),
        0 <= r < size,
        0 <= c < size,
    ensures
        0 <= bayer_value(size, r, c) < size * size,
    decreases size,
{
    if size > 1 {
        let h = (size / 2) as int;
        assert(size == 2 * h);
        lemma_bayer_range((size / 2) as nat, r % h, c % h);
        assert(r / h == 0 || r / h == 1) by {
            vstd::arithmetic::div_mod::lemma_fundamental_div_mod(r, h);
            assert(h * (r / h) <= r < 2 * h);
            assert(r / h < 2) by (nonlinear_arith)
                requires
                    h * (r / h) < 2 * h,
                    h > 0,
            ;
            vstd::arithmetic::div_mod::lemma_div_pos_is_pos(r, h);
        }
        assert(c / h == 0 || c / h == 1) by {
            vstd::arithmetic::div_mod::lemma_fundamental_div_mod(c, h);
            assert(h * (c / h) <= c < 2 * h);
            assert(c / h < 2) by (nonlinear_arith)
                requires
                    h * (c / h) < 2 * h,
                    h > 0,
            ;
            vstd::arithmetic::div_mod::lemma_div_pos_is_pos(c, h);
        }
        assert(size * size == 4 * (h * h)) by (nonlinear_arith)
            requires
                size == 2 * h,
        ;
    }
}

/// Tells whether `n` is a power of two.
pub fn check_power_of_two(n: usize) -> (yes: bool)
    ensures
        yes == is_power_of_two(n as nat),
{
    if n == 0 {
        return false;
    }
    let mut m: usize = n;
    while m % 2 == 0
        invariant
            m > 0,
            is_power_of_two(m as nat) == is_power_of_two(n as nat),
        decreases m,
    {
        m = m / 2;
    }
    m == 1
}

/// Four times every cell, plus an offset.
fn scaled(block: &Grid, offset: u64) -> (out: Grid)
    requires
        block.well_formed(),
        offset <= 3,
        forall|i: int| 0 <= i < block.cells@.len() ==> #[trigger] block.cells@[i] < 0x4000_0000,
    ensures
        out.well_formed(),
        out.rows == block.rows,
        out.cols == block.cols,
        forall|i: int|
            0 <= i < block.cells@.len() ==> #[trigger] out.cells@[i] == 4 * block.cells@[i]
                + offset,
{
    let mut cells: Vec<u64> = Vec::new();
    let mut i: usize = 0;
    while i < block.cells.len()
        invariant
            i <= block.cells@.len(),
            offset <= 3,
            cells@.len() == i,
            forall|j: int| 0 <= j < block.cells@.len() ==> #[trigger] block.cells@[j] < 0x4000_0000,
            forall|j: int| 0 <= j < i ==> #[trigger] cells@[j] == 4 * block.cells@[j] + offset,
        decreases block.cells@.len() - i,
    {
        cells.push(4 * block.cells[i] + offset);
        i += 1;
    }
    Grid { rows: block.rows, cols: block.cols, cells }
}

/// Joins two blocks that can be joined.
fn stack(axis: usize, first: &Grid, second: &Grid) -> (block: Grid)
    requires
        stackable(axis, *first, *second),
    ensures
        block.well_formed(),
        axis == 0 ==> block.rows == first.rows + second.rows && block.cols == first.cols,
        axis == 1 ==> block.rows == first.rows && block.cols == first.cols + second.cols,
        axis == 0 ==> forall|r: int, c: int|
            0 <= r < block.rows && 0 <= c < block.cols ==> #[trigger] block.at(r, c) == if r
                < first.rows {
                first.at(r, c)
            } else {
                second.at(r - first.rows, c)
            },
        axis == 1 ==> forall|r: int, c: int|
            0 <= r < block.rows && 0 <= c < block.cols ==> #[trigger] block.at(r, c) == if c
                < first.cols {
                first.at(r, c)
            } else {
                second.at(r, c - first.cols)
            },
{
    match stack_blocks(axis, first, second) {
        Some(block) => block,
        None => unreached(),
    }
}

/// The numerators of the matrix of the given size, built from the matrix of
/// half the size: its four scaled copies are joined two and two below each
/// other, and the two columns side by side.
fn build_numerators(size: usize) -> (m: Grid)
    requires
        is_power_of_two(size as nat),
        size <= MAX_MATRIX_SIZE,
    ensures
        m.well_formed(),
        m.rows == size,
        m.cols == size,
        forall|r: int, c: int|
            0 <= r < size && 0 <= c < size ==> #[trigger] m.at(r, c) == bayer_value(
                size as nat,
                r,
                c,
            ),
    decreases size,
{
    if size == 1 {
        let cells: Vec<u64> = vec![0];
        assert(cells@.len() == 1);
        let m = Grid { rows: 1, cols: 1, cells };
        assert(m.rows * m.cols == 1) by (nonlinear_arith)
            requires
                m.rows == 1,
                m.cols == 1,
        ;
        assert forall|r: int, c: int| 0 <= r < 1 && 0 <= c < 1 implies #[trigger] m.at(r, c)
            == bayer_value(1, r, c) by {
            assert(r * 1 + c == 0);
        }
        return m;
    }
    let h: usize = size / 2;
    let quarter = build_numerators(h);
    proof {
        assert(h * h <= 0x1000_0000) by (nonlinear_arith)
            requires
                h <= 0x4000,
        ;
        assert forall|i: int| 0 <= i < quarter.cells@.len() implies #[trigger] quarter.cells@[i]
            < 0x4000_0000 by {
            let r = i / (h as int);
            let c = i % (h as int);
            crate::image::lemma_row_in_bounds(i, h as int, h as int);
            vstd::arithmetic::div_mod::lemma_fundamental_div_mod(i, h as int);
            assert((h as int) * r == r * (h as int)) by (nonlinear_arith);
            assert(quarter.at(r, c) == bayer_value(h as nat, r, c));
            lemma_bayer_range(h as nat, r, c);
        }
    }
    let a = scaled(&quarter, 0);
    let b = scaled(&quarter, 2);
    let c = scaled(&quarter, 3);
    let d = scaled(&quarter, 1);
    let left = stack(0, &a, &c);
    let right = stack(0, &b, &d);
    assert(left.cells@.len() == 2 * (h * h)) by (nonlinear_arith)
        requires
            left.cells@.len() == (h + h) * h,
    ;
    assert(right.cells@.len() == 2 * (h * h)) by (nonlinear_arith)
        requires
            right.cells@.len() == (h + h) * h,
    ;
    let whole = stack(1, &left, &right);
    proof {
        let hh = h as int;
        assert forall|r: int, col: int| 0 <= r < size && 0 <= col < size implies #[trigger] whole.at(
            r,
            col,
        ) == bayer_value(size as nat, r, col) by {
            let qr = if r < hh {
                r
            } else {
                r - hh
            };
            let qc = if col < hh {
                col
            } else {
                col - hh
            };
            let lower: int = if r < hh {
                0
            } else {
                1
            };
            let rightward: int = if col < hh {
                0
            } else {
                1
            };
            vstd::arithmetic::div_mod::lemma_fundamental_div_mod_converse(r, hh, lower, qr);
            vstd::arithmetic::div_mod::lemma_fundamental_div_mod_converse(col, hh, rightward, qc);
            lemma_cell_in_bounds(qc, qr, hh, hh);
            assert(quarter.at(qr, qc) == bayer_value(h as nat, qr, qc));
            if col < hh {
                assert(whole.at(r, col) == left.at(r, col));
                if r < hh {
                    assert(left.at(r, col) == a.at(qr, qc));
                } else {
                    assert(left.at(r, col) == c.at(qr, qc));
                }
            } else {
                assert(whole.at(r, col) == right.at(r, qc));
                if r < hh {
                    assert(right.at(r, qc) == b.at(qr, qc));
                } else {
                    assert(right.at(r, qc) == d.at(qr, qc));
                }
            }
        }
    }
    whole
}

/// The numerators of the matrix of the given size, row after row.
pub open spec fn bayer_cells(size: nat) -> Seq<u64> {
    Seq::new(size * size, |i: int| bayer_value(size, i / (size as int), i % (size as int)) as u64)
}

/// The threshold matrix of ordered dithering. It is fixed by its size: entry
/// `(r, c)` is `bayer_value(size, r, c)` over `size * size`.
pub struct BayerMatrix {
    size: usize,
    cells: Vec<u64>,
}

impl View for BayerMatrix {
    type V = Seq<u64>;

    /// The numerators, row after row.
    closed spec fn view(&self) -> Seq<u64> {
        self.cells@
    }
}

impl BayerMatrix {
    #[verifier::type_invariant]
    spec fn well_formed(self) -> bool {
        &&& is_power_of_two(self.size as nat)
        &&& self.size <= MAX_MATRIX_SIZE
        &&& self.cells@ == bayer_cells(self.size as nat)
    }

    pub closed spec fn spec_size(self) -> nat {
        self.size as nat
    }

    /// The side length of the matrix, a power of two.
    pub fn size(&self) -> (n: usize)
        ensures
            n == self.spec_size(),
            is_power_of_two(n as nat),
            0 < n <= MAX_MATRIX_SIZE,
    {
        proof {
            use_type_invariant(self);
        }
        self.size
    }

    /// What every numerator is taken over: `size * size`.
    pub fn denominator(&self) -> (d: u64)
        ensures
            d == self.spec_size() * self.spec_size(),
    {
        proof {
            use_type_invariant(self);
        }
        let n = self.size as u64;
        assert(n * n <= 0x4000_0000) by (nonlinear_arith)
            requires
                n <= 0x8000,
        ;
        n * n
    }

    /// The numerator of the threshold in row `r` and column `c`, or `None`
    /// outside the matrix.
    pub fn numerator(&self, r: usize, c: usize) -> (value: Option<u64>)
        ensures
            value.is_some() <==> (r < self.spec_size() && c < self.spec_size()),
            value matches Some(v) ==> v == bayer_value(self.spec_size(), r as int, c as int),
    {
        proof {
            use_type_invariant(self);
        }
        let count = self.cells.len();
        if r < self.size && c < self.size {
            proof {
                lemma_cell_in_bounds(c as int, r as int, self.size as int, self.size as int);
                crate::image::lemma_cell_index(c as int, r as int, self.size as int);
                lemma_bayer_range(self.size as nat, r as int, c as int);
                assert(self.size * self.size <= 0x4000_0000) by (nonlinear_arith)
                    requires
                        self.size <= 0x8000,
                ;
            }
            Some(self.cells[r * self.size + c])
        } else {
            None
        }
    }
}

/// Builds the threshold matrix of the given size.
pub fn build_bayer_matrix(size: usize) -> (result: Result<BayerMatrix, DitherError>)
    requires
        is_power_of_two(size as nat) ==> size <= MAX_MATRIX_SIZE,
    ensures
        !is_power_of_two(size as nat) ==> result == Err::<BayerMatrix, DitherError>(
            DitherError::InvalidMatrixSize,
        ),
        is_power_of_two(size as nat) ==> {
            &&& result matches Ok(matrix)
            &&& matrix.spec_size() == size
            &&& matrix@ == bayer_cells(size as nat)
        },
{
    if !check_power_of_two(size) {
        return Err(DitherError::InvalidMatrixSize);
    }
    let grid = build_numerators(size);
    proof {
        let n = size as int;
        assert forall|i: int| 0 <= i < n * n implies #[trigger] grid.cells@[i] == bayer_cells(
            size as nat,
        )[i] by {
            crate::image::lemma_row_in_bounds(i, n, n);
            vstd::arithmetic::div_mod::lemma_fundamental_div_mod(i, n);
            assert(n * (i / n) == (i / n) * n) by (nonlinear_arith);
            assert(grid.at(i / n, i % n) == bayer_value(size as nat, i / n, i % n));
        }
        assert(grid.cells@ =~= bayer_cells(size as nat));
    }
    Ok(BayerMatrix { size, cells: grid.cells })
}

/// What the threshold at pixel `(x, y)` adds to every channel:
/// `(threshold - 1/2) * amplitude`, rounded toward zero, where the threshold
/// is the entry in row `x mod size` and column `y mod size` of the matrix.
pub open spec fn threshold_offset(size: nat, x: int, y: int, amplitude: int) -> int {
    let d = (size * size) as int;
    let t = bayer_value(size, x % (size as int), y % (size as int));
    share(2 * t - d, amplitude, 2 * d)
}

/// A pixel with the same offset added to every channel.
pub open spec fn perturbed(source: RgbPixel, offset: int) -> Rgb {
    Rgb { r: source.0 + offset, g: source.1 + offset, b: source.2 + offset }
}

/// The output of ordered dithering at pixel `(x, y)`. It depends on the
/// source pixel and its place, and on no other pixel.
pub open spec fn ordered_pixel(
    source: RgbPixel,
    x: int,
    y: int,
    size: nat,
    amplitude: int,
    palette: Seq<RgbPixel>,
) -> RgbPixel {
    nearest(perturbed(source, threshold_offset(size, x, y, amplitude)), palette)
}

/// The output of ordered dithering over an image in raster order.
pub open spec fn ordered_output(
    source: Seq<RgbPixel>,
    width: int,
    size: nat,
    amplitude: int,
    palette: Seq<RgbPixel>,
) -> Seq<RgbPixel> {
    Seq::new(
        source.len(),
        |k: int| ordered_pixel(source[k], k % width, k / width, size, amplitude, palette),
    )
}

/// No pixel depends on another. Two images of one width that agree in a
/// pixel get the same output there, whatever their other pixels hold, so the
/// order in which pixels are processed cannot matter.
pub proof fn lemma_pixels_are_independent(
    first: Seq<RgbPixel>,
    second: Seq<RgbPixel>,
    width: int,
    size: nat,
    amplitude: int,
    palette: Seq<RgbPixel>,
    k: int,
)
    requires
        0 <= k < first.len(),
        0 <= k < second.len(),
        first[k] == second[k],
    ensures
        ordered_output(first, width, size, amplitude, palette)[k] == ordered_output(
            second,
            width,
            size,
            amplitude,
            palette,
        )[k],
{
}

/// Dithers one pixel: perturbs it by the threshold of its place and
/// quantizes the result.
pub fn ordered_dither_pixel(
    matrix: &BayerMatrix,
    source: RgbPixel,
    x: usize,
    y: usize,
    amplitude: u16,
    palette: &[RgbPixel],
) -> (result: Result<RgbPixel, DitherError>)
    ensures
        palette@.len() == 0 ==> result == Err::<RgbPixel, DitherError>(DitherError::EmptyPalette),
        palette@.len() > 0 ==> result == Ok::<RgbPixel, DitherError>(
            ordered_pixel(
                source,
                x as int,
                y as int,
                matrix.spec_size(),
                amplitude as int,
                palette@,
            ),
        ),
{
    if palette.len() == 0 {
        return Err(DitherError::EmptyPalette);
    }
    let size = matrix.size();
    let d = matrix.denominator();
    let t = match matrix.numerator(x % size, y % size) {
        Some(t) => t,
        None => unreached(),
    };
    proof {
        lemma_bayer_range(size as nat, (x % size) as int, (y % size) as int);
        assert(d <= 0x4000_0000) by (nonlinear_arith)
            requires
                d == size * size,
                size <= 0x8000,
        ;
    }
    let numerator: i64 = 2 * (t as i64) - d as i64;
    assert(-0x4000_0000 * 0x1_0000 <= numerator * amplitude <= 0x4000_0000 * 0x1_0000)
        by (nonlinear_arith)
        requires
            -0x4000_0000 <= numerator <= 0x4000_0000,
            0 <= amplitude <= 0xffff,
    ;
    let product: i64 = numerator * (amplitude as i64);
    let divisor: u64 = 2 * d;
    let offset: i64 = if product >= 0 {
        proof {
            vstd::arithmetic::div_mod::lemma_div_pos_is_pos(product as int, divisor as int);
            vstd::arithmetic::div_mod::lemma_div_is_ordered_by_denominator(
                product as int,
                1,
                divisor as int,
            );
        }
        ((product as u64) / divisor) as i64
    } else {
        proof {
            vstd::arithmetic::div_mod::lemma_div_pos_is_pos(-product as int, divisor as int);
            vstd::arithmetic::div_mod::lemma_div_is_ordered_by_denominator(
                -product as int,
                1,
                divisor as int,
            );
        }
        -((((-product) as u64) / divisor) as i64)
    };
    assert(offset == threshold_offset(size as nat, x as int, y as int, amplitude as int));
    let color = Color {
        red: source.0 as i64 + offset,
        green: source.1 as i64 + offset,
        blue: source.2 as i64 + offset,
    };
    Ok(nearest_entry(color, palette).quantized_color)
}

/// `result` is what ordered dithering owes for these inputs: the error for
/// a matrix size that is no power of two, else the error for an empty
/// palette, else the output as an image of the same shape.
pub open spec fn is_ordered_dither_of(
    result: Result<RgbImage, DitherError>,
    image: RgbImage,
    matrix_size: usize,
    amplitude: int,
    palette: Seq<RgbPixel>,
) -> bool {
    if !is_power_of_two(matrix_size as nat) {
        result == Err::<RgbImage, DitherError>(DitherError::InvalidMatrixSize)
    } else if palette.len() == 0 {
        result == Err::<RgbImage, DitherError>(DitherError::EmptyPalette)
    } else {
        &&& result matches Ok(out)
        &&& out.spec_width() == image.spec_width()
        &&& out.spec_height() == image.spec_height()
        &&& out@ == ordered_output(
            image@,
            image.spec_width() as int,
            matrix_size as nat,
            amplitude,
            palette,
        )
    }
}

/// Dithers an image with a threshold matrix that is already built, so that
/// one matrix can serve many images.
pub fn ordered_dither_with(
    image: &RgbImage,
    matrix: &BayerMatrix,
    palette: &[RgbPixel],
    amplitude: u16,
) -> (result: Result<RgbImage, DitherError>)
    ensures
        is_power_of_two(matrix.spec_size()),
        matrix.spec_size() <= usize::MAX,
        is_ordered_dither_of(
            result,
            *image,
            matrix.spec_size() as usize,
            amplitude as int,
            palette@,
        ),
{
    let matrix_size = matrix.size();
    if palette.len() == 0 {
        return Err(DitherError::EmptyPalette);
    }
    let width = image.width();
    let source = image.pixels();
    let n = source.len();
    let mut out: Vec<RgbPixel> = Vec::new();
    let mut k: usize = 0;
    while k < n
        invariant
            k <= n,
            n == source@.len(),
            source@ == image@,
            width == image.spec_width(),
            n == width * image.spec_height(),
            palette@.len() > 0,
            matrix.spec_size() == matrix_size,
            out@.len() == k,
            forall|j: int|
                0 <= j < k ==> #[trigger] out@[j] == ordered_pixel(
                    source@[j],
                    j % (width as int),
                    j / (width as int),
                    matrix_size as nat,
                    amplitude as int,
                    palette@,
                ),
        decreases n - k,
    {
        assert(width > 0) by (nonlinear_arith)
            requires
                k < n,
                n == width * image.spec_height(),
        ;
        let pixel = match ordered_dither_pixel(
            matrix,
            source[k],
            k % width,
            k / width,
            amplitude,
            palette,
        ) {
            Ok(pixel) => pixel,
            Err(e) => {
                return Err(e);
            },
        };
        out.push(pixel);
        k += 1;
    }
    assert(out@ =~= ordered_output(
        image@,
        image.spec_width() as int,
        matrix_size as nat,
        amplitude as int,
        palette@,
    ));
    Ok(image.reshaped(out))
}

/// Dithers an image by ordered dithering. Every pixel is perturbed by the
/// threshold of its place and quantized on its own; no error is carried.
///
/// The matrix size is checked first, then the palette; on either failure
/// nothing is produced.
pub fn ordered_dither(
    image: &RgbImage,
    matrix_size: usize,
    palette: &[RgbPixel],
    amplitude: u16,
) -> (result: Result<RgbImage, DitherError>)
    requires
        is_power_of_two(matrix_size as nat) ==> matrix_size <= MAX_MATRIX_SIZE,
    ensures
        is_ordered_dither_of(result, *image, matrix_size, amplitude as int, palette@),
{
    let matrix = match build_bayer_matrix(matrix_size) {
        Ok(matrix) => matrix,
        Err(e) => {
            return Err(e);
        },
    };
    ordered_dither_with(image, &matrix, palette, amplitude)
}

/// Dithers an image by ordered dithering where the matrix can be built, and
/// returns `None` where its size is a power of two beyond `MAX_MATRIX_SIZE`.
pub fn try_ordered_dither(
    image: &RgbImage,
    matrix_size: usize,
    palette: &[RgbPixel],
    amplitude: u16,
) -> (result: Option<Result<RgbImage, DitherError>>)
    ensures
        result.is_some() <==> (is_power_of_two(matrix_size as nat) ==> matrix_size
            <= MAX_MATRIX_SIZE),
        result matches Some(r) ==> is_ordered_dither_of(
            r,
            *image,
            matrix_size,
            amplitude as int,
            palette@,
        ),
{
    if !check_power_of_two(matrix_size) || matrix_size <= MAX_MATRIX_SIZE {
        Some(ordered_dither(image, matrix_size, palette, amplitude))
    } else {
        None
    }
}

/// The ordered method of dithering. It is less accurate than error
/// propagation, but gives a regular pattern, and it changes every pixel on
/// its own.
pub struct Bayer {
    pub matrix_size: usize,
    pub palette: Vec<RgbPixel>,
    pub amplitude: u16,
}

impl Bayer {
    /// A ditherer with the given matrix size and the default amplitude.
    pub fn new(matrix_size: usize, palette: Vec<RgbPixel>) -> (bayer: Self)
        ensures
            bayer.matrix_size == matrix_size,
            bayer.palette == palette,
            bayer.amplitude == DEFAULT_AMPLITUDE,
    {
        Bayer { matrix_size, palette, amplitude: DEFAULT_AMPLITUDE }
    }

    /// A copy of the ditherer with another matrix size.
    pub fn with_matrix_size(&self, matrix_size: usize) -> (bayer: Self)
        ensures
            bayer.matrix_size == matrix_size,
            bayer.palette@ == self.palette@,
            bayer.amplitude == self.amplitude,
    {
        let mut palette: Vec<RgbPixel> = Vec::new();
        let mut i: usize = 0;
        while i < self.palette.len()
            invariant
                i <= self.palette@.len(),
                palette@ == self.palette@.take(i as int),
            decreases self.palette@.len() - i,
        {
            palette.push(self.palette[i]);
            i += 1;
            assert(palette@ =~= self.palette@.take(i as int));
        }
        assert(palette@ =~= self.palette@);
        Bayer { matrix_size, palette, amplitude: self.amplitude }
    }

    /// The threshold matrix of the given size.
    pub fn dither_matrix(n: usize) -> (result: Result<BayerMatrix, DitherError>)
        requires
            is_power_of_two(n as nat) ==> n <= MAX_MATRIX_SIZE,
        ensures
            !is_power_of_two(n as nat) ==> result == Err::<BayerMatrix, DitherError>(
                DitherError::InvalidMatrixSize,
            ),
            is_power_of_two(n as nat) ==> {
                &&& result matches Ok(matrix)
                &&& matrix.spec_size() == n
                &&& matrix@ == bayer_cells(n as nat)
            },
    {
        build_bayer_matrix(n)
    }

    /// Dithers the image with this matrix size, palette and amplitude.
    pub fn affect(&self, image: RgbImage) -> (result: Result<RgbImage, DitherError>)
        requires
            is_power_of_two(self.matrix_size as nat) ==> self.matrix_size <= MAX_MATRIX_SIZE,
        ensures
            is_ordered_dither_of(
                result,
                image,
                self.matrix_size,
                self.amplitude as int,
                self.palette@,
            ),
    {
        ordered_dither(&image, self.matrix_size, self.palette.as_slice(), self.amplitude)
    }
}

} // verus!
