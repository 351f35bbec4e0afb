use vstd::prelude::*;

verus! {

/// Where the byte at index `i` comes from when the chunk `start..end` is
/// moved so that it begins at `destination`: the bytes the chunk jumps over
/// close the gap it leaves.
pub open spec fn moved_origin(start: int, end: int, destination: int, i: int) -> int {
    let chunk = end - start;
    if destination >= start {
        if i < start {
            i
        } else if i < destination {
            i + chunk
        } else if i < destination + chunk {
            i - (destination - start)
        } else {
            i
        }
    } else {
        if i < destination {
            i
        } else if i < destination + chunk {
            i + (start - destination)
        } else if i < end {
            i - chunk
        } else {
            i
        }
    }
}

/// The bytes with the chunk `start..end` moved so that it begins at
/// `destination`.
pub open spec fn moved(bytes: Seq<u8>, start: int, end: int, destination: int) -> Seq<u8> {
    Seq::new(bytes.len(), |i: int| bytes[moved_origin(start, end, destination, i)])
}

/// The chunk can be moved: it lies in the bytes, and so does the place it is
/// moved to.
pub open spec fn can_move(len: int, start: int, end: int, destination: int) -> bool {
    &&& 0 <= start <= end <= len
    &&& 0 <= destination
    &&& destination + (end - start) <= len
}

/// The bytes with the chunks of `count` bytes at `first` and at `second`
/// exchanged.
pub open spec fn swapped(bytes: Seq<u8>, first: int, second: int, count: int) -> Seq<u8> {
    Seq::new(
        bytes.len(),
        |i: int|
            if first <= i < first + count {
                bytes[i - first + second]
            } else if second <= i < second + count {
                bytes[i - second + first]
            } else {
                bytes[i]
            },
    )
}

/// Reverses the bytes in place.
pub fn reverse_bytes(bytes: &mut Vec<u8>)
    ensures
        final(bytes)@ == old(bytes)@.reverse(),
{
    let n = bytes.len();
    let mut i: usize = 0;
    while i < n / 2
        invariant
            n == old(bytes)@.len(),
            bytes@.len() == n,
            i <= n / 2,
            forall|j: int| 0 <= j < i ==> #[trigger] bytes@[j] == old(bytes)@[n - 1 - j],
            forall|j: int| 0 <= j < i ==> #[trigger] bytes@[n - 1 - j] == old(bytes)@[j],
            forall|j: int| i <= j < n - i ==> #[trigger] bytes@[j] == old(bytes)@[j],
        decreases n / 2 - i,
    {
        let low = bytes[i];
        let high = bytes[n - 1 - i];
        bytes.set(i, high);
        bytes.set(n - 1 - i, low);
        i += 1;
    }
    assert forall|j: int| 0 <= j < n implies #[trigger] bytes@[j] == old(bytes)@.reverse()[j] by {
        if j >= n - i {
            assert(bytes@[n - 1 - (n - 1 - j)] == old(bytes)@[n - 1 - j]);
        }
    }
    assert(bytes@ =~= old(bytes)@.reverse());
}

/// Exchanges two chunks of `count` bytes that do not overlap.
pub fn swap_chunks(bytes: &mut Vec<u8>, first: usize, second: usize, count: usize)
    requires
        first + count <= second,
        second + count <= old(bytes)@.len(),
    ensures
        final(bytes)@ == swapped(old(bytes)@, first as int, second as int, count as int),
{
    let n = bytes.len();
    let mut j: usize = 0;
    while j < count
        invariant
            j <= count,
            first + count <= second,
            second + count <= bytes@.len(),
            n == bytes@.len(),
            bytes@.len() == old(bytes)@.len(),
            forall|i: int|
                0 <= i < bytes@.len() ==> #[trigger] bytes@[i] == if first <= i < first + j {
                    old(bytes)@[i - first + second]
                } else if second <= i < second + j {
                    old(bytes)@[i - second + first]
                } else {
                    old(bytes)@[i]
                },
        decreases count - j,
    {
        let a = bytes[first + j];
        let b = bytes[second + j];
        bytes.set(first + j, b);
        bytes.set(second + j, a);
        j += 1;
    }
    assert(bytes@ =~= swapped(old(bytes)@, first as int, second as int, count as int));
}

/// Moves the chunk `start..end` so that it begins at `destination`.
pub fn move_chunk(bytes: &mut Vec<u8>, start: usize, end: usize, destination: usize)
    requires
        can_move(old(bytes)@.len() as int, start as int, end as int, destination as int),
    ensures
        final(bytes)@ == moved(old(bytes)@, start as int, end as int, destination as int),
{
    let n = bytes.len();
    let chunk = end - start;
    let mut out: Vec<u8> = Vec::new();
    let mut i: usize = 0;
    while i < n
        invariant
            i <= n,
            n == bytes@.len(),
            bytes@ == old(bytes)@,
            chunk == end - start,
            can_move(n as int, start as int, end as int, destination as int),
            out@.len() == i,
            forall|j: int|
                0 <= j < i ==> #[trigger] out@[j] == bytes@[moved_origin(
                    start as int,
                    end as int,
                    destination as int,
                    j,
                )],
        decreases n - i,
    {
        let from: usize = if destination >= start {
            if i < start {
                i
            } else if i < destination {
                i + chunk
            } else if i < destination + chunk {
                i - (destination - start)
            } else {
                i
            }
        } else {
            if i < destination {
                i
            } else if i < destination + chunk {
                i + (start - destination)
            } else if i < end {
                i - chunk
            } else {
                i
            }
        };
        out.push(bytes[from]);
        i += 1;
    }
    assert(out@ =~= moved(old(bytes)@, start as int, end as int, destination as int));
    *bytes = out;
}

} // verus!
