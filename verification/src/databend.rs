use vstd::prelude::*;
use crate::bytes::{move_chunk, moved, reverse_bytes, swap_chunks, swapped};
use crate::utils::{process_range, Edge};

verus! {

/// A bend that touches the bytes it is given and nothing else.
pub trait BendLocal {
    /// `after` is what the bend makes of `before`.
    spec fn yields(&self, before: Seq<u8>, after: Seq<u8>) -> bool;

    fn bend(&mut self, affect: &mut Vec<u8>)
        ensures
            final(affect)@.len() == old(affect)@.len(),
            old(self).yields(old(affect)@, final(affect)@),
    ;
}

/// Where a range with the given ends begins in a sequence.
pub open spec fn range_start(chunk: (Edge, Edge)) -> int {
    match chunk.0 {
        Edge::Unbounded => 0,
        Edge::Included(x) => x as int,
        Edge::Excluded(x) => x as int,
    }
}

/// Where a range with the given ends stops in a sequence of `len` items.
pub open spec fn range_end(chunk: (Edge, Edge), len: int) -> int {
    match chunk.1 {
        Edge::Unbounded => len,
        Edge::Included(x) => x + 1,
        Edge::Excluded(x) => x as int,
    }
}

/// A bend that works on a chunk of the bytes with regard to the whole.
pub trait BendGlobal {
    /// The bend is defined on the chunk `start..end` of the bytes.
    spec fn admits(&self, whole: Seq<u8>, start: int, end: int) -> bool;

    /// `after` is what the bend makes of `before` for the chunk `start..end`.
    spec fn yields(&self, before: Seq<u8>, start: int, end: int, after: Seq<u8>) -> bool;

    fn bend(&mut self, whole: &mut Vec<u8>, chunk: (Edge, Edge))
        requires
            chunk.1 matches Edge::Included(x) ==> x < usize::MAX,
            old(self).admits(
                old(whole)@,
                range_start(chunk),
                range_end(chunk, old(whole)@.len() as int),
            ),
        ensures
            final(whole)@.len() == old(whole)@.len(),
            old(self).yields(
                old(whole)@,
                range_start(chunk),
                range_end(chunk, old(whole)@.len() as int),
                final(whole)@,
            ),
    ;
}

/// Reverses the bytes.
pub struct Reverse;

impl BendLocal for Reverse {
    open spec fn yields(&self, before: Seq<u8>, after: Seq<u8>) -> bool {
        after == before.reverse()
    }

    fn bend(&mut self, affect: &mut Vec<u8>) {
        reverse_bytes(affect);
    }
}

/// Multiplies every byte, modulo 256.
pub struct Multiply {
    pub multiply_by: usize,
}

impl BendLocal for Multiply {
    open spec fn yields(&self, before: Seq<u8>, after: Seq<u8>) -> bool {
        after == Seq::new(before.len(), |i: int| ((before[i] * self.multiply_by) % 256) as u8)
    }

    fn bend(&mut self, affect: &mut Vec<u8>) {
        let n = affect.len();
        let factor = self.multiply_by;
        let mut i: usize = 0;
        while i < n
            invariant
                i <= n,
                affect@.len() == n,
                n == old(affect)@.len(),
                forall|j: int|
                    0 <= j < i ==> #[trigger] affect@[j] == ((old(affect)@[j] * factor) % 256) as u8,
                forall|j: int| i <= j < n ==> #[trigger] affect@[j] == old(affect)@[j],
            decreases n - i,
        {
            let byte = affect[i];
            assert(byte * factor <= 255 * usize::MAX) by (nonlinear_arith)
                requires
                    0 <= byte <= 255,
                    0 <= factor <= usize::MAX,
            ;
            affect.set(i, ((byte as u128 * factor as u128) % 256) as u8);
            i += 1;
        }
        assert(affect@ =~= Seq::new(
            old(affect)@.len(),
            |i: int| ((old(affect)@[i] * factor) % 256) as u8,
        ));
    }
}

/// Adds the same amount to every byte, modulo 256.
pub struct Increment {
    pub increment_by: usize,
}

impl BendLocal for Increment {
    open spec fn yields(&self, before: Seq<u8>, after: Seq<u8>) -> bool {
        after == Seq::new(before.len(), |i: int| ((before[i] + self.increment_by) % 256) as u8)
    }

    fn bend(&mut self, affect: &mut Vec<u8>) {
        let n = affect.len();
        let amount = self.increment_by;
        let mut i: usize = 0;
        while i < n
            invariant
                i <= n,
                affect@.len() == n,
                n == old(affect)@.len(),
                forall|j: int|
                    0 <= j < i ==> #[trigger] affect@[j] == ((old(affect)@[j] + amount) % 256) as u8,
                forall|j: int| i <= j < n ==> #[trigger] affect@[j] == old(affect)@[j],
            decreases n - i,
        {
            let byte = affect[i];
            affect.set(i, ((byte as u128 + amount as u128) % 256) as u8);
            i += 1;
        }
        assert(affect@ =~= Seq::new(
            old(affect)@.len(),
            |i: int| ((old(affect)@[i] + amount) % 256) as u8,
        ));
    }
}

/// Sets every byte to zero.
pub struct Blackout;

impl BendLocal for Blackout {
    open spec fn yields(&self, before: Seq<u8>, after: Seq<u8>) -> bool {
        after == Seq::new(before.len(), |i: int| 0u8)
    }

    fn bend(&mut self, affect: &mut Vec<u8>) {
        let n = affect.len();
        let mut i: usize = 0;
        while i < n
            invariant
                i <= n,
                affect@.len() == n,
                forall|j: int| 0 <= j < i ==> #[trigger] affect@[j] == 0,
            decreases n - i,
        {
            affect.set(i, 0);
            i += 1;
        }
        assert(affect@ =~= Seq::new(old(affect)@.len(), |i: int| 0u8));
    }
}

/// Moves the chunk by `shift_by` places; the bytes it jumps over close the
/// gap.
pub struct Shift {
    pub shift_by: isize,
}

impl BendGlobal for Shift {
    open spec fn admits(&self, whole: Seq<u8>, start: int, end: int) -> bool {
        &&& 0 <= start <= end <= whole.len()
        &&& !(start == 0 && self.shift_by < 0)
        &&& !(end == whole.len() && self.shift_by > 0)
        &&& start + self.shift_by >= 0
        &&& end + self.shift_by <= whole.len()
    }

    open spec fn yields(&self, before: Seq<u8>, start: int, end: int, after: Seq<u8>) -> bool {
        after == moved(before, start, end, start + self.shift_by)
    }

    fn bend(&mut self, whole: &mut Vec<u8>, chunk: (Edge, Edge)) {
        let n = whole.len();
        let (start, end) = process_range(chunk.0, chunk.1, n);
        let destination: usize = (start as i128 + self.shift_by as i128) as usize;
        move_chunk(whole, start, end, destination);
    }
}

/// The bytes with `piece` written over them at `at`.
pub open spec fn overwritten(bytes: Seq<u8>, at: int, piece: Seq<u8>) -> Seq<u8> {
    Seq::new(
        bytes.len(),
        |i: int|
            if at <= i < at + piece.len() {
                piece[i - at]
            } else {
                bytes[i]
            },
    )
}

/// The bytes with `piece` written over them `count` times, at 0, at
/// `stride`, at twice `stride` and so on, later copies over earlier ones.
pub open spec fn repeated(bytes: Seq<u8>, piece: Seq<u8>, stride: int, count: int) -> Seq<u8>
    decreases count,
{
    if count <= 0 {
        bytes
    } else {
        overwritten(repeated(bytes, piece, stride, count - 1), stride * (count - 1), piece)
    }
}

/// Writes the chunk over the bytes `n` times: at 0, at the chunk's end, at
/// twice the chunk's end and so on.
pub struct Repeat {
    pub n: usize,
}

impl BendGlobal for Repeat {
    open spec fn admits(&self, whole: Seq<u8>, start: int, end: int) -> bool {
        &&& 0 <= start <= end <= whole.len()
        &&& end + (end - start) * self.n < whole.len()
        &&& self.n > 0 ==> end * (self.n - 1) + (end - start) <= whole.len()
    }

    open spec fn yields(&self, before: Seq<u8>, start: int, end: int, after: Seq<u8>) -> bool {
        after == repeated(before, before.subrange(start, end), end, self.n as int)
    }

    fn bend(&mut self, whole: &mut Vec<u8>, chunk: (Edge, Edge)) {
        let len = whole.len();
        let (start, end) = process_range(chunk.0, chunk.1, len);
        let chunksize = end - start;
        let mut piece: Vec<u8> = Vec::new();
        let mut k: usize = start;
        while k < end
            invariant
                start <= k <= end <= len,
                len == whole@.len(),
                whole@ == old(whole)@,
                piece@ == whole@.subrange(start as int, k as int),
            decreases end - k,
        {
            piece.push(whole[k]);
            k += 1;
            assert(piece@ =~= whole@.subrange(start as int, k as int));
        }
        let mut i: usize = 0;
        while i < self.n
            invariant
                i <= self.n,
                len == whole@.len(),
                len == old(whole)@.len(),
                chunksize == end - start,
                piece@.len() == chunksize,
                piece@ == old(whole)@.subrange(start as int, end as int),
                self.admits(old(whole)@, start as int, end as int),
                whole@ == repeated(old(whole)@, piece@, end as int, i as int),
            decreases self.n - i,
        {
            assert(end * i <= end * (self.n - 1)) by (nonlinear_arith)
                requires
                    0 <= i <= self.n - 1,
                    0 <= end,
            ;
            let at: usize = end * i;
            let ghost before = whole@;
            let mut j: usize = 0;
            while j < chunksize
                invariant
                    j <= chunksize,
                    at + chunksize <= len,
                    len == whole@.len(),
                    piece@.len() == chunksize,
                    forall|x: int|
                        0 <= x < len ==> #[trigger] whole@[x] == if at <= x < at + j {
                            piece@[x - at]
                        } else {
                            before[x]
                        },
                decreases chunksize - j,
            {
                whole.set(at + j, piece[j]);
                j += 1;
            }
            assert(whole@ =~= overwritten(before, at as int, piece@));
            i += 1;
        }
    }
}

/// Exchanges the chunk with the block of the same length at `block_at`.
pub struct Swap {
    pub block_at: usize,
}

impl BendGlobal for Swap {
    open spec fn admits(&self, whole: Seq<u8>, start: int, end: int) -> bool {
        &&& 0 <= start <= end <= whole.len()
        &&& self.block_at + (end - start) <= whole.len()
        &&& self.block_at + (end - start) <= start || end <= self.block_at
    }

    open spec fn yields(&self, before: Seq<u8>, start: int, end: int, after: Seq<u8>) -> bool {
        after == if self.block_at < start {
            swapped(before, self.block_at as int, start, end - start)
        } else {
            swapped(before, start, self.block_at as int, end - start)
        }
    }

    fn bend(&mut self, whole: &mut Vec<u8>, chunk: (Edge, Edge)) {
        let len = whole.len();
        let (start, end) = process_range(chunk.0, chunk.1, len);
        let chunksize = end - start;
        if self.block_at < start {
            swap_chunks(whole, self.block_at, start, chunksize);
        } else {
            swap_chunks(whole, start, self.block_at, chunksize);
        }
    }
}

} // verus!
