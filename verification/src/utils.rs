use vstd::prelude::*;

verus! {

/// The sum of the first `count` bytes.
pub open spec fn sum_prefix(nums: Seq<u8>, count: int) -> int
    decreases count,
{
    if count <= 0 {
        0
    } else {
        sum_prefix(nums, count - 1) + nums[count - 1]
    }
}

/// The sum of all bytes.
pub open spec fn sum_spec(nums: Seq<u8>) -> int {
    sum_prefix(nums, nums.len() as int)
}

/// Adds up bytes.
pub fn sum(nums: &[u8]) -> (total: usize)
    requires
        255 * nums@.len() <= usize::MAX,
    ensures
        total == sum_spec(nums@),
{
    let mut total: usize = 0;
    let mut i: usize = 0;
    while i < nums.len()
        invariant
            i <= nums@.len(),
            255 * nums@.len() <= usize::MAX,
            total == sum_prefix(nums@, i as int),
            total <= 255 * i,
        decreases nums@.len() - i,
    {
        total = total + nums[i] as usize;
        i += 1;
    }
    total
}

/// The square of a byte.
pub fn sq_u8(num: &u8) -> (square: u64)
    ensures
        square == *num * *num,
{
    let n = *num as u64;
    assert(n * n <= 255 * 255) by (nonlinear_arith)
        requires
            n <= 255,
    ;
    n * n
}

/// The column and the row of a cell of a grid that is `xdim` cells wide,
/// from the cell's row-major number.
pub fn map_to_2d(cell_no: usize, xdim: usize) -> (cell: (usize, usize))
    requires
        xdim > 0,
    ensures
        cell.0 == cell_no % xdim,
        cell.1 == cell_no / xdim,
        cell.1 * xdim + cell.0 == cell_no,
{
    proof {
        vstd::arithmetic::div_mod::lemma_fundamental_div_mod(cell_no as int, xdim as int);
        assert((xdim as int) * (cell_no as int / xdim as int) == (cell_no as int / xdim as int) * (
        xdim as int)) by (nonlinear_arith);
    }
    (cell_no % xdim, cell_no / xdim)
}

/// The width and the height of a matrix held as rows: the length of the
/// first row, or 0 when there is none, and the number of rows.
pub fn get_dimensions_of_matrix<T>(matrix: &Vec<Vec<T>>) -> (dimensions: (usize, usize))
    ensures
        dimensions.1 == matrix@.len(),
        dimensions.0 == if matrix@.len() == 0 {
            0
        } else {
            matrix@[0]@.len()
        },
{
    let ydim = matrix.len();
    let xdim = if ydim == 0 {
        0
    } else {
        matrix[0].len()
    };
    (xdim, ydim)
}

/// One end of a range of indices.
#[derive(Debug, Clone, Copy, PartialEq, Eq, Structural)]
pub enum Edge {
    Unbounded,
    Included(usize),
    Excluded(usize),
}

/// The half-open range `(start, end)` that a range with the given ends
/// stands for in a sequence of `len` items. An open start is 0 and an open end
/// is `len`; an included end is counted in. A bounded start is taken as it
/// is, included or not.
pub fn process_range(start: Edge, end: Edge, len: usize) -> (range: (usize, usize))
    requires
        end matches Edge::Included(x) ==> x < usize::MAX,
    ensures
        range.0 == (match start {
            Edge::Unbounded => 0,
            Edge::Included(x) => x,
            Edge::Excluded(x) => x,
        }),
        range.1 == (match end {
            Edge::Unbounded => len as int,
            Edge::Included(x) => x + 1,
            Edge::Excluded(x) => x as int,
        }),
{
    (
        match start {
            Edge::Unbounded => 0,
            Edge::Included(x) => x,
            Edge::Excluded(x) => x,
        },
        match end {
            Edge::Unbounded => len,
            Edge::Included(x) => x + 1,
            Edge::Excluded(x) => x,
        },
    )
}

} // verus!
