use vstd::prelude::*;
use moveslice::Moveslice;
use rand::seq::SliceRandom;
use rand::Rng;
use crate::bytes::{moved, reverse_bytes, swap_chunks, swapped};

verus! {

/// A way of corrupting a run of bytes in place.
pub trait Corruption {
    /// The bytes on which the corruption is defined.
    spec fn admits(&self, bytes: Seq<u8>) -> bool;

    /// `after` is something the corruption can make of `before`.
    spec fn yields(&self, before: Seq<u8>, after: Seq<u8>) -> bool;

    /// Corrupts the bytes. Their number never changes.
    fn corrupt(&self, item: &mut Vec<u8>)
        requires
            self.admits(old(item)@),
        ensures
            final(item)@.len() == old(item)@.len(),
            self.yields(old(item)@, final(item)@),
    ;

    /// The name of the corruption, as a sequence of characters.
    spec fn name(&self) -> Seq<char>;

    /// The name of the corruption.
    fn get_name(&self) -> (name: String)
        ensures
            name@ == self.name(),
    ;
}

/// The error of `moveslice::Moveslice::try_moveslice`.
#[verifier::external_type_specification]
#[verifier::external_body]
pub struct ExMovesliceError(moveslice::Error);

/// Moves a chunk with `moveslice::Moveslice::try_moveslice`. The claim, which
/// rests on moveslice and is not proved here: the call succeeds exactly when
/// the chunk lies in the bytes and fits where it is moved to; then the chunk
/// begins at `destination` and the bytes it jumped over close the gap;
/// otherwise nothing changes.
#[verifier::external_body]
fn try_move(bytes: &mut Vec<u8>, start: usize, end: usize, destination: usize) -> (result: Result<
    (),
    moveslice::Error,
>)
    requires
        start <= end,
        destination + (end - start) <= usize::MAX,
    ensures
        final(bytes)@.len() == old(bytes)@.len(),
        result.is_ok() <==> end <= old(bytes)@.len() && (destination <= start || destination + (end
            - start) <= old(bytes)@.len()),
        result.is_ok() ==> final(bytes)@ == moved(
            old(bytes)@,
            start as int,
            end as int,
            destination as int,
        ),
        result.is_err() ==> final(bytes)@ == old(bytes)@,
{
    bytes.try_moveslice(start..end, destination)
}

/// Shuffles bytes with `rand::seq::SliceRandom::shuffle` and the thread's
/// generator. The claim, which rests on rand and is not proved here: the
/// bytes are the same as before, in some order.
#[verifier::external_body]
fn shuffle_bytes(bytes: &mut Vec<u8>)
    ensures
        final(bytes)@.to_multiset() == old(bytes)@.to_multiset(),
        final(bytes)@.len() == old(bytes)@.len(),
{
    bytes.shuffle(&mut rand::thread_rng());
}

/// Draws a byte with `rand::Rng::gen_range` from the range that leaves out
/// the largest byte. The claim, which rests on rand and is not proved here:
/// the byte is below 255.
#[verifier::external_body]
fn random_byte() -> (byte: u8)
    ensures
        byte < u8::MAX,
{
    rand::thread_rng().gen_range(u8::MIN..u8::MAX)
}

/// Joins a name into `prefix[name]` with `format!`.
#[verifier::external_body]
fn bracketed(prefix: &str, name: &str) -> (text: String)
    ensures
        text@ == prefix@ + seq!['['] + name@ + seq![']'],
{
    format!("{}[{}]", prefix, name)
}

/// Reverses the bytes.
pub struct Reverse;

impl Corruption for Reverse {
    open spec fn admits(&self, bytes: Seq<u8>) -> bool {
        true
    }

    open spec fn yields(&self, before: Seq<u8>, after: Seq<u8>) -> bool {
        after == before.reverse()
    }

    fn corrupt(&self, item: &mut Vec<u8>) {
        reverse_bytes(item);
    }

    open spec fn name(&self) -> Seq<char> {
        "Reverse"@
    }

    fn get_name(&self) -> (name: String) {
        "Reverse".to_owned()
    }
}

/// Sets every byte to zero.
pub struct Voidout;

impl Corruption for Voidout {
    open spec fn admits(&self, bytes: Seq<u8>) -> bool {
        true
    }

    open spec fn yields(&self, before: Seq<u8>, after: Seq<u8>) -> bool {
        after == Seq::new(before.len(), |i: int| 0u8)
    }

    fn corrupt(&self, item: &mut Vec<u8>) {
        let n = item.len();
        let mut i: usize = 0;
        while i < n
            invariant
                i <= n,
                item@.len() == n,
                forall|j: int| 0 <= j < i ==> #[trigger] item@[j] == 0,
            decreases n - i,
        {
            item.set(i, 0);
            i += 1;
        }
        assert(item@ =~= Seq::new(old(item)@.len(), |i: int| 0u8));
    }

    open spec fn name(&self) -> Seq<char> {
        "Voidout"@
    }

    fn get_name(&self) -> (name: String) {
        "Voidout".to_owned()
    }
}

/// Adds the same amount to every byte, modulo 256.
pub struct Increment(pub usize);

impl Corruption for Increment {
    open spec fn admits(&self, bytes: Seq<u8>) -> bool {
        bytes.len() > 0 ==> self.0 + 255 <= usize::MAX
    }

    open spec fn yields(&self, before: Seq<u8>, after: Seq<u8>) -> bool {
        after == Seq::new(before.len(), |i: int| ((before[i] + self.0) % 256) as u8)
    }

    fn corrupt(&self, item: &mut Vec<u8>) {
        let n = item.len();
        let mut i: usize = 0;
        while i < n
            invariant
                i <= n,
                item@.len() == n,
                n == old(item)@.len(),
                n > 0 ==> self.0 + 255 <= usize::MAX,
                forall|j: int|
                    0 <= j < i ==> #[trigger] item@[j] == ((old(item)@[j] + self.0) % 256) as u8,
                forall|j: int| i <= j < n ==> #[trigger] item@[j] == old(item)@[j],
            decreases n - i,
        {
            let byte = item[i];
            item.set(i, ((byte as usize + self.0) % 256) as u8);
            i += 1;
        }
        assert(item@ =~= Seq::new(
            old(item)@.len(),
            |i: int| ((old(item)@[i] + self.0) % 256) as u8,
        ));
    }

    open spec fn name(&self) -> Seq<char> {
        "Increment"@
    }

    fn get_name(&self) -> (name: String) {
        "Increment".to_owned()
    }
}

/// Adds to every byte, modulo 256, an amount that grows from byte to byte.
pub struct Accelerate {
    pub start: usize,
    pub accel: usize,
}

impl Corruption for Accelerate {
    open spec fn admits(&self, bytes: Seq<u8>) -> bool {
        &&& self.start + bytes.len() * self.accel <= usize::MAX
        &&& forall|i: int|
            0 <= i < bytes.len() ==> #[trigger] bytes[i] + self.start + i * self.accel
                <= usize::MAX
    }

    open spec fn yields(&self, before: Seq<u8>, after: Seq<u8>) -> bool {
        after == Seq::new(
            before.len(),
            |i: int| ((before[i] + self.start + i * self.accel) % 256) as u8,
        )
    }

    fn corrupt(&self, item: &mut Vec<u8>) {
        let n = item.len();
        let mut increment: usize = self.start;
        let mut i: usize = 0;
        while i < n
            invariant
                i <= n,
                item@.len() == n,
                n == old(item)@.len(),
                self.admits(old(item)@),
                increment == self.start + i * self.accel,
                forall|j: int|
                    0 <= j < i ==> #[trigger] item@[j] == ((old(item)@[j] + self.start + j
                        * self.accel) % 256) as u8,
                forall|j: int| i <= j < n ==> #[trigger] item@[j] == old(item)@[j],
            decreases n - i,
        {
            let byte = item[i];
            assert(old(item)@[i as int] + self.start + i * self.accel <= usize::MAX);
            item.set(i, ((byte as usize + increment) % 256) as u8);
            assert(self.start + (i + 1) * self.accel <= self.start + n * self.accel
                && (i + 1) * self.accel == i * self.accel + self.accel) by (nonlinear_arith)
                requires
                    i < n,
            ;
            increment = increment + self.accel;
            i += 1;
        }
        assert(item@ =~= Seq::new(
            old(item)@.len(),
            |i: int| ((old(item)@[i] + self.start + i * self.accel) % 256) as u8,
        ));
    }

    open spec fn name(&self) -> Seq<char> {
        "Accelerate"@
    }

    fn get_name(&self) -> (name: String) {
        "Accelerate".to_owned()
    }
}

/// Exchanges the chunk of `chunksize` bytes at `start1` with the chunk that
/// begins one byte before `start2`.
pub struct Swap {
    pub start1: usize,
    pub start2: usize,
    pub chunksize: usize,
}

impl Corruption for Swap {
    open spec fn admits(&self, bytes: Seq<u8>) -> bool {
        &&& self.start2 >= 1
        &&& self.start1 + self.chunksize <= self.start2 - 1
        &&& self.start2 - 1 + self.chunksize <= bytes.len()
    }

    open spec fn yields(&self, before: Seq<u8>, after: Seq<u8>) -> bool {
        after == swapped(before, self.start1 as int, self.start2 - 1, self.chunksize as int)
    }

    fn corrupt(&self, item: &mut Vec<u8>) {
        swap_chunks(item, self.start1, self.start2 - 1, self.chunksize);
    }

    open spec fn name(&self) -> Seq<char> {
        "Swap"@
    }

    fn get_name(&self) -> (name: String) {
        "Swap".to_owned()
    }
}

/// Moves the chunk `subslice.0..subslice.1` by `shift_by` places.
pub struct Shift {
    pub subslice: (usize, usize),
    pub shift_by: isize,
}

impl Shift {
    /// Where the chunk is moved to: its start plus the shift, kept within
    /// the range of indices.
    pub open spec fn destination(&self) -> int {
        let d = self.subslice.0 + self.shift_by;
        if d < 0 {
            0
        } else if d > usize::MAX {
            usize::MAX as int
        } else {
            d
        }
    }

    fn destination_of(&self) -> (d: usize)
        ensures
            d == self.destination(),
    {
        let d: i128 = self.subslice.0 as i128 + self.shift_by as i128;
        if d < 0 {
            0
        } else if d > usize::MAX as i128 {
            usize::MAX
        } else {
            d as usize
        }
    }
}

impl Corruption for Shift {
    open spec fn admits(&self, bytes: Seq<u8>) -> bool {
        &&& self.subslice.0 <= self.subslice.1 <= bytes.len()
        &&& self.destination() > self.subslice.0 ==> self.destination() + (self.subslice.1
            - self.subslice.0) <= bytes.len()
    }

    open spec fn yields(&self, before: Seq<u8>, after: Seq<u8>) -> bool {
        after == moved(before, self.subslice.0 as int, self.subslice.1 as int, self.destination())
    }

    fn corrupt(&self, item: &mut Vec<u8>) {
        let n = item.len();
        let destination = self.destination_of();
        let _ = try_move(item, self.subslice.0, self.subslice.1, destination);
    }

    open spec fn name(&self) -> Seq<char> {
        "Shift"@
    }

    fn get_name(&self) -> (name: String) {
        "Shift".to_owned()
    }
}

/// Overwrites what follows the first `chunk` bytes with repetitions of them,
/// provided `times` is not zero and more bytes follow than the chunk holds.
pub struct Loop {
    pub chunk: usize,
    pub times: usize,
}

impl Loop {
    /// The corruption writes at all.
    pub open spec fn runs(&self, len: int) -> bool {
        self.times > 0 && self.chunk < len - self.chunk
    }
}

impl Corruption for Loop {
    open spec fn admits(&self, bytes: Seq<u8>) -> bool {
        &&& self.chunk <= bytes.len()
        &&& self.runs(bytes.len() as int) ==> self.chunk > 0
    }

    open spec fn yields(&self, before: Seq<u8>, after: Seq<u8>) -> bool {
        after == Seq::new(
            before.len(),
            |i: int|
                if self.runs(before.len() as int) && i >= self.chunk {
                    before[(i - self.chunk) % (self.chunk as int)]
                } else {
                    before[i]
                },
        )
    }

    fn corrupt(&self, item: &mut Vec<u8>) {
        let n = item.len();
        let rest = n - self.chunk;
        if self.times > 0 && self.chunk < rest {
            let mut idx: usize = 0;
            while idx < rest
                invariant
                    idx <= rest,
                    rest == n - self.chunk,
                    0 < self.chunk <= n,
                    item@.len() == n,
                    n == old(item)@.len(),
                    forall|j: int| 0 <= j < self.chunk ==> #[trigger] item@[j] == old(item)@[j],
                    forall|j: int|
                        0 <= j < idx ==> #[trigger] item@[self.chunk + j] == old(item)@[j % (
                        self.chunk as int)],
                    forall|j: int| self.chunk + idx <= j < n ==> #[trigger] item@[j] == old(item)@[j],
                decreases rest - idx,
            {
                let byte = item[idx % self.chunk];
                item.set(self.chunk + idx, byte);
                idx += 1;
            }
            assert forall|i: int| 0 <= i < n implies #[trigger] item@[i] == if i >= self.chunk {
                old(item)@[(i - self.chunk) % (self.chunk as int)]
            } else {
                old(item)@[i]
            } by {
                if i >= self.chunk {
                    assert(item@[self.chunk + (i - self.chunk)] == old(item)@[(i - self.chunk) % (
                    self.chunk as int)]);
                }
            }
        }
        assert(item@ =~= Seq::new(
            old(item)@.len(),
            |i: int|
                if self.runs(old(item)@.len() as int) && i >= self.chunk {
                    old(item)@[(i - self.chunk) % (self.chunk as int)]
                } else {
                    old(item)@[i]
                },
        ));
    }

    open spec fn name(&self) -> Seq<char> {
        "Loop"@
    }

    fn get_name(&self) -> (name: String) {
        "Loop".to_owned()
    }
}

/// Puts the bytes in a random order.
pub struct Shuffle;

impl Corruption for Shuffle {
    open spec fn admits(&self, bytes: Seq<u8>) -> bool {
        true
    }

    open spec fn yields(&self, before: Seq<u8>, after: Seq<u8>) -> bool {
        after.to_multiset() == before.to_multiset()
    }

    fn corrupt(&self, item: &mut Vec<u8>) {
        shuffle_bytes(item);
    }

    open spec fn name(&self) -> Seq<char> {
        "Shuffle"@
    }

    fn get_name(&self) -> (name: String) {
        "Shuffle".to_owned()
    }
}

/// Replaces every byte by a random byte below 255.
pub struct Entropy;

impl Corruption for Entropy {
    open spec fn admits(&self, bytes: Seq<u8>) -> bool {
        true
    }

    open spec fn yields(&self, before: Seq<u8>, after: Seq<u8>) -> bool {
        forall|i: int| 0 <= i < after.len() ==> #[trigger] after[i] < u8::MAX
    }

    fn corrupt(&self, item: &mut Vec<u8>) {
        let n = item.len();
        let mut i: usize = 0;
        while i < n
            invariant
                i <= n,
                item@.len() == n,
                forall|j: int| 0 <= j < i ==> #[trigger] item@[j] < u8::MAX,
            decreases n - i,
        {
            item.set(i, random_byte());
            i += 1;
        }
    }

    open spec fn name(&self) -> Seq<char> {
        "Entropy"@
    }

    fn get_name(&self) -> (name: String) {
        "Entropy".to_owned()
    }
}

/// Applies a corruption to the bytes `start_chunk..end_chunk` only.
pub struct PartialCorrupt<C: Corruption> {
    pub corruption: C,
    pub start_chunk: usize,
    pub end_chunk: usize,
}

impl<C: Corruption> PartialCorrupt<C> {
    pub fn from_corruption(corruption: C, start_chunk: usize, end_chunk: usize) -> (partial:
        PartialCorrupt<C>)
        ensures
            partial.corruption == corruption,
            partial.start_chunk == start_chunk,
            partial.end_chunk == end_chunk,
    {
        PartialCorrupt { corruption, start_chunk, end_chunk }
    }
}

impl<C: Corruption> Corruption for PartialCorrupt<C> {
    open spec fn admits(&self, bytes: Seq<u8>) -> bool {
        &&& self.start_chunk <= self.end_chunk <= bytes.len()
        &&& self.corruption.admits(bytes.subrange(self.start_chunk as int, self.end_chunk as int))
    }

    open spec fn yields(&self, before: Seq<u8>, after: Seq<u8>) -> bool {
        &&& after.len() == before.len()
        &&& forall|i: int|
            0 <= i < before.len() && !(self.start_chunk <= i < self.end_chunk) ==> #[trigger] after[i]
                == before[i]
        &&& self.corruption.yields(
            before.subrange(self.start_chunk as int, self.end_chunk as int),
            after.subrange(self.start_chunk as int, self.end_chunk as int),
        )
    }

    fn corrupt(&self, item: &mut Vec<u8>) {
        let start = self.start_chunk;
        let end = self.end_chunk;
        let mut part: Vec<u8> = Vec::new();
        let mut i: usize = start;
        while i < end
            invariant
                start <= i <= end,
                end <= item@.len(),
                item@ == old(item)@,
                part@ == item@.subrange(start as int, i as int),
            decreases end - i,
        {
            part.push(item[i]);
            i += 1;
            assert(part@ =~= item@.subrange(start as int, i as int));
        }
        let ghost taken = part@;
        self.corruption.corrupt(&mut part);
        let mut j: usize = 0;
        while j < end - start
            invariant
                j <= end - start,
                start <= end <= item@.len(),
                item@.len() == old(item)@.len(),
                part@.len() == end - start,
                forall|i: int|
                    0 <= i < item@.len() && !(start <= i < start + j) ==> #[trigger] item@[i]
                        == old(item)@[i],
                forall|i: int| 0 <= i < j ==> #[trigger] item@[start + i] == part@[i],
            decreases end - start - j,
        {
            item.set(start + j, part[j]);
            j += 1;
        }
        assert forall|i: int| 0 <= i < end - start implies #[trigger] item@.subrange(
            start as int,
            end as int,
        )[i] == part@[i] by {
            assert(item@[start + i] == part@[i]);
        }
        assert(item@.subrange(start as int, end as int) =~= part@);
        assert(old(item)@.subrange(start as int, end as int) == taken);
    }

    open spec fn name(&self) -> Seq<char> {
        "Partial"@ + seq!['['] + self.corruption.name() + seq![']']
    }

    fn get_name(&self) -> (name: String) {
        let inner = self.corruption.get_name();
        bracketed("Partial", inner.as_str())
    }
}

} // verus!
