use vstd::prelude::*;
use crate::pixel::RgbPixel;

verus! {

/// An image as an arena of pixels addressed by row-major index: the pixel at
/// column `x` of row `y` sits at index `y * width + x`.
#[derive(Debug)]
pub struct RgbImage {
    width: usize,
    height: usize,
    pixels: Vec<RgbPixel>,
}

impl View for RgbImage {
    type V = Seq<RgbPixel>;

    /// The pixels in raster order.
    closed spec fn view(&self) -> Seq<RgbPixel> {
        self.pixels@
    }
}

impl RgbImage {
    #[verifier::type_invariant]
    spec fn well_formed(self) -> bool {
        self.pixels@.len() == self.width * self.height
    }

    pub closed spec fn spec_width(self) -> nat {
        self.width as nat
    }

    pub closed spec fn spec_height(self) -> nat {
        self.height as nat
    }

    /// The pixel at column `x` of row `y`.
    pub open spec fn at(self, x: int, y: int) -> RgbPixel {
        self@[y * self.spec_width() + x]
    }

    /// An image of one colour. `None` when `width * height` does not fit the
    /// machine's address range.
    pub fn new(width: usize, height: usize, fill: RgbPixel) -> (image: Option<RgbImage>)
        ensures
            image.is_some() <==> width * height <= usize::MAX,
            image matches Some(img) ==> {
                &&& img.spec_width() == width
                &&& img.spec_height() == height
                &&& img@ == Seq::new((width * height) as nat, |k: int| fill)
            },
    {
        let count = match width.checked_mul(height) {
            Some(count) => count,
            None => {
                return None;
            },
        };
        let mut pixels: Vec<RgbPixel> = Vec::new();
        let mut k: usize = 0;
        while k < count
            invariant
                k <= count,
                pixels@ == Seq::new(k as nat, |j: int| fill),
            decreases count - k,
        {
            pixels.push(fill);
            k += 1;
            assert(pixels@ =~= Seq::new(k as nat, |j: int| fill));
        }
        Some(RgbImage { width, height, pixels })
    }

    /// Takes ownership of pixels already laid out in raster order. `None` when
    /// their number is not `width * height`.
    pub fn from_pixels(width: usize, height: usize, pixels: Vec<RgbPixel>) -> (image: Option<
        RgbImage,
    >)
        ensures
            image.is_some() <==> pixels@.len() == width * height,
            image matches Some(img) ==> {
                &&& img.spec_width() == width
                &&& img.spec_height() == height
                &&& img@ == pixels@
            },
    {
        let given = pixels.len();
        match width.checked_mul(height) {
            Some(count) => {
                if count == given {
                    Some(RgbImage { width, height, pixels })
                } else {
                    None
                }
            },
            None => None,
        }
    }

    /// Lays pixels out as an image of the same shape as this one.
    pub(crate) fn reshaped(&self, pixels: Vec<RgbPixel>) -> (image: RgbImage)
        requires
            pixels@.len() == self@.len(),
        ensures
            image.spec_width() == self.spec_width(),
            image.spec_height() == self.spec_height(),
            image@ == pixels@,
    {
        proof {
            use_type_invariant(self);
        }
        RgbImage { width: self.width, height: self.height, pixels }
    }

    /// Takes an image held as rows of channel triples. `None` when the rows
    /// differ in length or the pixels cannot be counted in a `usize`.
    pub fn from_rows(rows: &Vec<Vec<[u8; 3]>>) -> (image: Option<RgbImage>)
        ensures
            image.is_some() <==> {
                &&& forall|y: int| 0 <= y < rows@.len() ==> (#[trigger] rows@[y])@.len() == row_width(*rows)
                &&& row_width(*rows) * rows@.len() <= usize::MAX
            },
            image matches Some(img) ==> {
                &&& img.spec_width() == row_width(*rows)
                &&& img.spec_height() == rows@.len()
                &&& img@.len() == row_width(*rows) * rows@.len()
                &&& forall|y: int, x: int|
                    0 <= y < rows@.len() && 0 <= x < row_width(*rows) ==> #[trigger] img.at(x, y)
                        == RgbPixel(rows@[y]@[x][0], rows@[y]@[x][1], rows@[y]@[x][2])
            },
    {
        let height = rows.len();
        let width = if height == 0 {
            0
        } else {
            rows[0].len()
        };
        let count = match width.checked_mul(height) {
            Some(count) => count,
            None => {
                return None;
            },
        };
        let mut pixels: Vec<RgbPixel> = Vec::new();
        let mut y: usize = 0;
        while y < height
            invariant
                y <= height,
                height == rows@.len(),
                width == row_width(*rows),
                count == width * height,
                pixels@.len() == y * width,
                forall|j: int| 0 <= j < y ==> (#[trigger] rows@[j])@.len() == width,
                forall|j: int, x: int|
                    0 <= j < y && 0 <= x < width ==> #[trigger] pixels@[j * width + x] == RgbPixel(
                        rows@[j]@[x][0],
                        rows@[j]@[x][1],
                        rows@[j]@[x][2],
                    ),
            decreases height - y,
        {
            let row = &rows[y];
            if row.len() != width {
                return None;
            }
            let ghost before = pixels@;
            let mut x: usize = 0;
            while x < width
                invariant
                    x <= width,
                    y < height,
                    row@ == rows@[y as int]@,
                    row@.len() == width,
                    pixels@.len() == y * width + x,
                    before.len() == y * width,
                    forall|i: int| 0 <= i < before.len() ==> pixels@[i] == before[i],
                    forall|i: int|
                        0 <= i < x ==> #[trigger] pixels@[y * width + i] == RgbPixel(
                            row@[i][0],
                            row@[i][1],
                            row@[i][2],
                        ),
                decreases width - x,
            {
                let channels = row[x];
                pixels.push(RgbPixel(channels[0], channels[1], channels[2]));
                x += 1;
            }
            proof {
                assert((y + 1) * width == y * width + width) by (nonlinear_arith);
                assert forall|j: int, i: int| 0 <= j < y + 1 && 0 <= i < width implies #[trigger] pixels@[j
                    * width + i] == RgbPixel(rows@[j]@[i][0], rows@[j]@[i][1], rows@[j]@[i][2]) by {
                    if j < y {
                        lemma_cell_in_bounds(i, j, width as int, y as int);
                        assert(width * y == y * width) by (nonlinear_arith);
                        assert(pixels@[j * width + i] == before[j * width + i]);
                    }
                }
            }
            y += 1;
        }
        assert(width * height == height * width) by (nonlinear_arith);
        let image = RgbImage { width, height, pixels };
        proof {
            assert forall|j: int, i: int| 0 <= j < height && 0 <= i < width implies #[trigger] image.at(
                i,
                j,
            ) == RgbPixel(rows@[j]@[i][0], rows@[j]@[i][1], rows@[j]@[i][2]) by {
                lemma_cell_in_bounds(i, j, width as int, height as int);
            }
        }
        Some(image)
    }

    /// The image as rows of channel triples.
    pub fn to_rows(&self) -> (rows: Vec<Vec<[u8; 3]>>)
        ensures
            rows@.len() == self.spec_height(),
            forall|y: int| 0 <= y < rows@.len() ==> (#[trigger] rows@[y])@.len() == self.spec_width(),
            forall|y: int, x: int|
                0 <= y < self.spec_height() && 0 <= x < self.spec_width() ==> {
                    &&& (#[trigger] rows@[y]@[x])[0] == self.at(x, y).0
                    &&& rows@[y]@[x][1] == self.at(x, y).1
                    &&& rows@[y]@[x][2] == self.at(x, y).2
                },
    {
        proof {
            use_type_invariant(self);
        }
        let count = self.pixels.len();
        let mut rows: Vec<Vec<[u8; 3]>> = Vec::new();
        let mut y: usize = 0;
        while y < self.height
            invariant
                y <= self.height,
                self.pixels@.len() == self.width * self.height,
                count == self.pixels@.len(),
                rows@.len() == y,
                forall|j: int| 0 <= j < y ==> (#[trigger] rows@[j])@.len() == self.width,
                forall|j: int, x: int|
                    0 <= j < y && 0 <= x < self.width ==> {
                        &&& (#[trigger] rows@[j]@[x])[0] == self.pixels@[j * self.width + x].0
                        &&& rows@[j]@[x][1] == self.pixels@[j * self.width + x].1
                        &&& rows@[j]@[x][2] == self.pixels@[j * self.width + x].2
                    },
            decreases self.height - y,
        {
            let mut row: Vec<[u8; 3]> = Vec::new();
            let mut x: usize = 0;
            while x < self.width
                invariant
                    x <= self.width,
                    y < self.height,
                    self.pixels@.len() == self.width * self.height,
                    count == self.pixels@.len(),
                    row@.len() == x,
                    forall|i: int|
                        0 <= i < x ==> {
                            &&& (#[trigger] row@[i])[0] == self.pixels@[y * self.width + i].0
                            &&& row@[i][1] == self.pixels@[y * self.width + i].1
                            &&& row@[i][2] == self.pixels@[y * self.width + i].2
                        },
                decreases self.width - x,
            {
                proof {
                    lemma_cell_in_bounds(x as int, y as int, self.width as int, self.height as int);
                }
                let p = self.pixels[y * self.width + x];
                row.push([p.0, p.1, p.2]);
                x += 1;
            }
            rows.push(row);
            y += 1;
        }
        rows
    }

    /// A copy of the image.
    pub fn duplicate(&self) -> (copy: RgbImage)
        ensures
            copy.spec_width() == self.spec_width(),
            copy.spec_height() == self.spec_height(),
            copy@ == self@,
    {
        proof {
            use_type_invariant(self);
        }
        let mut pixels: Vec<RgbPixel> = Vec::new();
        let mut k: usize = 0;
        while k < self.pixels.len()
            invariant
                k <= self.pixels@.len(),
                pixels@ == self.pixels@.take(k as int),
            decreases self.pixels@.len() - k,
        {
            pixels.push(self.pixels[k]);
            k += 1;
            assert(pixels@ =~= self.pixels@.take(k as int));
        }
        assert(pixels@ =~= self.pixels@);
        RgbImage { width: self.width, height: self.height, pixels }
    }

    pub fn width(&self) -> (w: usize)
        ensures
            w == self.spec_width(),
    {
        self.width
    }

    pub fn height(&self) -> (h: usize)
        ensures
            h == self.spec_height(),
    {
        self.height
    }

    /// The pixels in raster order.
    pub fn pixels(&self) -> (pixels: &Vec<RgbPixel>)
        ensures
            pixels@ == self@,
            pixels@.len() == self.spec_width() * self.spec_height(),
    {
        proof {
            use_type_invariant(self);
        }
        &self.pixels
    }

    /// The pixel at column `x` of row `y`, or `None` outside the image.
    pub fn get(&self, x: usize, y: usize) -> (pixel: Option<RgbPixel>)
        ensures
            pixel.is_some() <==> (x < self.spec_width() && y < self.spec_height()),
            pixel matches Some(p) ==> p == self.at(x as int, y as int),
    {
        proof {
            use_type_invariant(self);
        }
        let count = self.pixels.len();
        if x < self.width && y < self.height {
            proof {
                lemma_cell_in_bounds(x as int, y as int, self.width as int, self.height as int);
            }
            Some(self.pixels[y * self.width + x])
        } else {
            None
        }
    }

    /// Overwrites the pixel at column `x` of row `y`. Outside the image
    /// nothing changes and `false` is returned.
    pub fn set(&mut self, x: usize, y: usize, pixel: RgbPixel) -> (written: bool)
        ensures
            final(self).spec_width() == old(self).spec_width(),
            final(self).spec_height() == old(self).spec_height(),
            written <==> (x < old(self).spec_width() && y < old(self).spec_height()),
            written ==> final(self)@ == old(self)@.update(y * old(self).spec_width() + x, pixel),
            !written ==> final(self)@ == old(self)@,
    {
        proof {
            use_type_invariant(&*self);
        }
        let count = self.pixels.len();
        if x < self.width && y < self.height {
            proof {
                lemma_cell_in_bounds(x as int, y as int, self.width as int, self.height as int);
            }
            let index = y * self.width + x;
            let mut taken = RgbImage { width: 0, height: 0, pixels: Vec::new() };
            std::mem::swap(self, &mut taken);
            let RgbImage { width, height, mut pixels } = taken;
            pixels.set(index, pixel);
            *self = RgbImage { width, height, pixels };
            true
        } else {
            false
        }
    }
}

/// The width of an image held as rows: the length of the first row, or 0
/// when there is none.
pub open spec fn row_width<T>(rows: Vec<Vec<T>>) -> nat {
    if rows@.len() == 0 {
        0
    } else {
        rows@[0]@.len()
    }
}

/// A cell inside a `width` by `height` grid has a row-major index inside the
/// arena.
pub proof fn lemma_cell_in_bounds(x: int, y: int, width: int, height: int)
    by (nonlinear_arith)
    requires
        0 <= x < width,
        0 <= y < height,
    ensures
        0 <= y * width + x < width * height,
        y * width <= y * width + x,
{
}

/// Raster indices and grid coordinates name the same cells.
pub proof fn lemma_cell_index(x: int, y: int, width: int)
    requires
        0 <= x < width,
    ensures
        (y * width + x) % width == x,
        (y * width + x) / width == y,
{
    vstd::arithmetic::div_mod::lemma_fundamental_div_mod_converse(y * width + x, width, y, x);
}

/// A raster index inside the image lies in a row inside the image.
pub proof fn lemma_row_in_bounds(k: int, width: int, height: int)
    by (nonlinear_arith)
    requires
        0 < width,
        0 <= k < width * height,
    ensures
        0 <= k / width < height,
        0 <= k % width < width,
{
}

} // verus!
