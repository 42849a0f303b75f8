//! The three stages of the packet cipher, each with its inverse: the swap of
//! runs of multiples, the flip of every byte's top bit, and the interleave.
use vstd::prelude::*;

verus! {

/// Whether `byte` counts as a multiple of the swap key `key`: the key is
/// not zero and divides the byte. Zero is a multiple of every such key, and
/// a key and its negative have the same multiples.
pub open spec fn is_multiple(byte: u8, key: int) -> bool {
    key != 0 && (byte as int) % (if key < 0 {
        -key
    } else {
        key
    }) == 0
}

/// The first index of the run of multiples that ends just before index `i`:
/// the least `j <= i` such that every byte of `bytes` from `j` up to, not
/// including, `i` is a multiple of `key`.
pub open spec fn run_start(bytes: Seq<u8>, key: int, i: int) -> int
    decreases i,
{
    if 0 < i <= bytes.len() && is_multiple(bytes[i - 1], key) {
        run_start(bytes, key, i - 1)
    } else {
        i
    }
}

/// The index just past the run of multiples that begins at index `i`: the
/// least `j >= i` that is the length of `bytes` or the index of a byte that
/// is no multiple of `key`.
pub open spec fn run_end(bytes: Seq<u8>, key: int, i: int) -> int
    decreases bytes.len() - i,
{
    if 0 <= i < bytes.len() && is_multiple(bytes[i], key) {
        run_end(bytes, key, i + 1)
    } else {
        i
    }
}

/// `bytes` with every maximal run of adjacent multiples of `key` reversed in
/// place. A run of two is a swap of neighbours; a byte that is no multiple
/// stays where it is.
pub open spec fn swapped(bytes: Seq<u8>, key: int) -> Seq<u8> {
    Seq::new(
        bytes.len(),
        |i: int|
            if is_multiple(bytes[i], key) {
                bytes[run_start(bytes, key, i) + run_end(bytes, key, i) - 1 - i]
            } else {
                bytes[i]
            },
    )
}

/// `bytes` with the top bit of every byte flipped.
pub open spec fn flipped(bytes: Seq<u8>) -> Seq<u8> {
    Seq::new(bytes.len(), |i: int| bytes[i] ^ 0x80)
}

/// `bytes` woven: the even positions take the bytes from the front in
/// order, the odd positions take them from the back, so `abcdef` becomes
/// `afbecd` and `abcde` becomes `aebdc`.
pub open spec fn interleaved(bytes: Seq<u8>) -> Seq<u8> {
    Seq::new(
        bytes.len(),
        |i: int|
            if i % 2 == 0 {
                bytes[i / 2]
            } else {
                bytes[bytes.len() - 1 - i / 2]
            },
    )
}

/// `bytes` unwoven: the front half takes the even positions in order, the
/// back half the odd positions from the last down, so `afbecd` becomes
/// `abcdef` again.
pub open spec fn deinterleaved(bytes: Seq<u8>) -> Seq<u8> {
    Seq::new(
        bytes.len(),
        |i: int|
            if 2 * i < bytes.len() {
                bytes[2 * i]
            } else {
                bytes[2 * (bytes.len() - 1 - i) + 1]
            },
    )
}

/// Where every byte from `from` up to `i` is a multiple and the byte before
/// `from`, if there is one, is none, the run before `i` starts at `from`.
pub proof fn lemma_run_start(bytes: Seq<u8>, key: int, from: int, i: int)
    requires
        0 <= from <= i <= bytes.len(),
        forall|k: int| from <= k < i ==> is_multiple(#[trigger] bytes[k], key),
        from == 0 || !is_multiple(bytes[from - 1], key),
    ensures
        run_start(bytes, key, i) == from,
    decreases i - from,
{
    if from < i {
        lemma_run_start(bytes, key, from, i - 1);
    }
}

/// Where every byte from `i` up to `to` is a multiple and the byte at `to`,
/// if there is one, is none, the run from `i` ends at `to`.
pub proof fn lemma_run_end(bytes: Seq<u8>, key: int, i: int, to: int)
    requires
        0 <= i <= to <= bytes.len(),
        forall|k: int| i <= k < to ==> is_multiple(#[trigger] bytes[k], key),
        to == bytes.len() || !is_multiple(bytes[to], key),
    ensures
        run_end(bytes, key, i) == to,
    decreases to - i,
{
    if i < to {
        lemma_run_end(bytes, key, i + 1, to);
    }
}

/// The run before `i` lies within the sequence, holds multiples only, and
/// is not preceded by a multiple.
pub proof fn lemma_run_start_bounds(bytes: Seq<u8>, key: int, i: int)
    requires
        0 <= i <= bytes.len(),
    ensures
        0 <= run_start(bytes, key, i) <= i,
        forall|k: int| run_start(bytes, key, i) <= k < i ==> is_multiple(#[trigger] bytes[k], key),
        run_start(bytes, key, i) == 0 || !is_multiple(bytes[run_start(bytes, key, i) - 1], key),
    decreases i,
{
    if 0 < i && is_multiple(bytes[i - 1], key) {
        lemma_run_start_bounds(bytes, key, i - 1);
    }
}

/// The run from `i` lies within the sequence, holds multiples only, and is
/// not followed by a multiple.
pub proof fn lemma_run_end_bounds(bytes: Seq<u8>, key: int, i: int)
    requires
        0 <= i <= bytes.len(),
    ensures
        i <= run_end(bytes, key, i) <= bytes.len(),
        forall|k: int| i <= k < run_end(bytes, key, i) ==> is_multiple(#[trigger] bytes[k], key),
        run_end(bytes, key, i) == bytes.len() || !is_multiple(bytes[run_end(bytes, key, i)], key),
    decreases bytes.len() - i,
{
    if i < bytes.len() && is_multiple(bytes[i], key) {
        lemma_run_end_bounds(bytes, key, i + 1);
    }
}

/// Whether `byte` is a multiple of the swap key.
fn multiple_of(byte: u8, key: i32) -> (yes: bool)
    ensures
        yes == is_multiple(byte, key as int),
{
    if key == 0 {
        false
    } else {
        let unit: i64 = if key < 0 {
            -(key as i64)
        } else {
            key as i64
        };
        (byte as i64) % unit == 0
    }
}

/// Reverses the bytes of `buf` from index `from` up to, not including, `to`.
fn reverse_range(buf: &mut [u8], from: usize, to: usize)
    requires
        from <= to <= old(buf)@.len(),
    ensures
        final(buf)@.len() == old(buf)@.len(),
        forall|k: int| from <= k < to ==> final(buf)@[k] == old(buf)@[from + to - 1 - k],
        forall|k: int|
            0 <= k < from || to <= k < old(buf)@.len() ==> final(buf)@[k] == old(buf)@[k],
{
    let mut low: usize = from;
    let mut high: usize = to;
    while high - low > 1
        invariant
            from <= low <= high <= to <= buf@.len(),
            low + high == from + to,
            buf@.len() == old(buf)@.len(),
            forall|k: int|
                from <= k < low || high <= k < to ==> buf@[k] == old(buf)@[from + to - 1 - k],
            forall|k: int| low <= k < high ==> buf@[k] == old(buf)@[k],
            forall|k: int| 0 <= k < from || to <= k < old(buf)@.len() ==> buf@[k] == old(buf)@[k],
        decreases high - low,
    {
        let front: u8 = buf[low];
        buf[low] = buf[high - 1];
        buf[high - 1] = front;
        low += 1;
        high -= 1;
    }
}

/// Reverses every maximal run of adjacent multiples of `key` in `buf`. A
/// key of zero has no multiples and leaves `buf` as it is.
pub fn swap_multiples(buf: &mut [u8], key: i32)
    ensures
        final(buf)@ == swapped(old(buf)@, key as int),
{
    let n = buf.len();
    let mut start: usize = 0;
    let mut i: usize = 0;
    while i < n
        invariant
            start <= i <= n,
            n == buf@.len(),
            buf@.len() == old(buf)@.len(),
            forall|k: int| start <= k < i ==> is_multiple(#[trigger] old(buf)@[k], key as int),
            start == 0 || !is_multiple(old(buf)@[start - 1], key as int),
            forall|k: int| 0 <= k < start ==> buf@[k] == swapped(old(buf)@, key as int)[k],
            forall|k: int| start <= k < n ==> buf@[k] == old(buf)@[k],
        decreases n - i,
    {
        if !multiple_of(buf[i], key) {
            proof {
                lemma_runs_of_range(old(buf)@, key as int, start as int, i as int);
            }
            reverse_range(buf, start, i);
            start = i + 1;
        }
        i += 1;
    }
    proof {
        lemma_runs_of_range(old(buf)@, key as int, start as int, n as int);
    }
    reverse_range(buf, start, n);
    assert(buf@ =~= swapped(old(buf)@, key as int));
}

/// Within a maximal run of multiples from `from` up to `to`, every index
/// has that run's bounds.
pub proof fn lemma_runs_of_range(bytes: Seq<u8>, key: int, from: int, to: int)
    requires
        0 <= from <= to <= bytes.len(),
        forall|k: int| from <= k < to ==> is_multiple(#[trigger] bytes[k], key),
        from == 0 || !is_multiple(bytes[from - 1], key),
        to == bytes.len() || !is_multiple(bytes[to], key),
    ensures
        forall|k: int| from <= k < to ==> (#[trigger] run_start(bytes, key, k)) == from,
        forall|k: int| from <= k < to ==> (#[trigger] run_end(bytes, key, k)) == to,
{
    assert forall|k: int| from <= k < to implies (#[trigger] run_start(bytes, key, k)) == from by {
        lemma_run_start(bytes, key, from, k);
    }
    assert forall|k: int| from <= k < to implies (#[trigger] run_end(bytes, key, k)) == to by {
        lemma_run_end(bytes, key, k, to);
    }
}

/// Two adjacent multiples with no multiple on either side change places.
pub proof fn lemma_pair_changes_places(bytes: Seq<u8>, key: int, i: int)
    requires
        0 <= i,
        i + 2 <= bytes.len(),
        is_multiple(bytes[i], key),
        is_multiple(bytes[i + 1], key),
        i == 0 || !is_multiple(bytes[i - 1], key),
        i + 2 == bytes.len() || !is_multiple(bytes[i + 2], key),
    ensures
        swapped(bytes, key)[i] == bytes[i + 1],
        swapped(bytes, key)[i + 1] == bytes[i],
{
    lemma_runs_of_range(bytes, key, i, i + 2);
}

/// Flips the top bit of every byte of `buf`.
pub fn flip_msb(buf: &mut [u8])
    ensures
        final(buf)@ == flipped(old(buf)@),
{
    let n = buf.len();
    let mut i: usize = 0;
    while i < n
        invariant
            i <= n,
            n == buf@.len(),
            buf@.len() == old(buf)@.len(),
            forall|k: int| 0 <= k < i ==> buf@[k] == old(buf)@[k] ^ 0x80,
            forall|k: int| i <= k < n ==> buf@[k] == old(buf)@[k],
        decreases n - i,
    {
        buf[i] = buf[i] ^ 0x80;
        i += 1;
    }
    assert(buf@ =~= flipped(old(buf)@));
}

/// Weaves the bytes of `buf`: front, back, second, second to last, and so
/// on.
pub fn interleave(buf: &mut [u8])
    ensures
        final(buf)@ == interleaved(old(buf)@),
{
    let n = buf.len();
    let copy = vstd::slice::slice_to_vec(buf);
    let mut i: usize = 0;
    while i < n
        invariant
            i <= n,
            n == buf@.len(),
            copy@ == old(buf)@,
            buf@.len() == old(buf)@.len(),
            forall|k: int| 0 <= k < i ==> buf@[k] == interleaved(old(buf)@)[k],
        decreases n - i,
    {
        if i % 2 == 0 {
            buf[i] = copy[i / 2];
        } else {
            buf[i] = copy[n - 1 - i / 2];
        }
        i += 1;
    }
    assert(buf@ =~= interleaved(old(buf)@));
}

/// Undoes [`interleave`].
pub fn deinterleave(buf: &mut [u8])
    ensures
        final(buf)@ == deinterleaved(old(buf)@),
{
    let n = buf.len();
    let copy = vstd::slice::slice_to_vec(buf);
    let mut i: usize = 0;
    while i < n
        invariant
            i <= n,
            n == buf@.len(),
            copy@ == old(buf)@,
            buf@.len() == old(buf)@.len(),
            forall|k: int| 0 <= k < i ==> buf@[k] == deinterleaved(old(buf)@)[k],
        decreases n - i,
    {
        if i < n - i {
            buf[i] = copy[2 * i];
        } else {
            buf[i] = copy[2 * (n - 1 - i) + 1];
        }
        i += 1;
    }
    assert(buf@ =~= deinterleaved(old(buf)@));
}

/// Flipping twice gives every byte back.
pub proof fn lemma_flip_is_involution(bytes: Seq<u8>)
    ensures
        flipped(flipped(bytes)) == bytes,
{
    assert forall|i: int| 0 <= i < bytes.len() implies flipped(flipped(bytes))[i] == bytes[i] by {
        let byte = bytes[i];
        assert((byte ^ 0x80) ^ 0x80 == byte) by (bit_vector);
    }
    assert(flipped(flipped(bytes)) =~= bytes);
}

/// Unweaving what was woven gives the bytes back.
pub proof fn lemma_deinterleave_inverts_interleave(bytes: Seq<u8>)
    ensures
        deinterleaved(interleaved(bytes)) == bytes,
{
    assert(deinterleaved(interleaved(bytes)) =~= bytes);
}

/// Weaving what was unwoven gives the bytes back.
pub proof fn lemma_interleave_inverts_deinterleave(bytes: Seq<u8>)
    ensures
        interleaved(deinterleaved(bytes)) == bytes,
{
    assert(interleaved(deinterleaved(bytes)) =~= bytes);
}

/// The swap moves multiples onto multiples only: a position holds a
/// multiple after the swap exactly when it held one before.
pub proof fn lemma_swap_keeps_multiples(bytes: Seq<u8>, key: int, i: int)
    requires
        0 <= i < bytes.len(),
    ensures
        is_multiple(swapped(bytes, key)[i], key) == is_multiple(bytes[i], key),
{
    if is_multiple(bytes[i], key) {
        lemma_run_start_bounds(bytes, key, i);
        lemma_run_end_bounds(bytes, key, i);
    }
}

/// Two sequences of one length whose multiples stand at the same positions
/// have the same runs.
pub proof fn lemma_runs_depend_on_multiples(a: Seq<u8>, b: Seq<u8>, key: int, i: int)
    requires
        a.len() == b.len(),
        forall|k: int|
            0 <= k < a.len() ==> is_multiple(#[trigger] a[k], key) == is_multiple(b[k], key),
        0 <= i <= a.len(),
    ensures
        run_start(a, key, i) == run_start(b, key, i),
        run_end(a, key, i) == run_end(b, key, i),
{
    lemma_run_start_bounds(a, key, i);
    lemma_run_end_bounds(a, key, i);
    let from = run_start(a, key, i);
    let to = run_end(a, key, i);
    assert forall|k: int| from <= k < i implies is_multiple(#[trigger] b[k], key) by {
        assert(is_multiple(a[k], key));
    }
    assert forall|k: int| i <= k < to implies is_multiple(#[trigger] b[k], key) by {
        assert(is_multiple(a[k], key));
    }
    lemma_run_start(b, key, from, i);
    lemma_run_end(b, key, i, to);
}

/// Swapping twice with one key gives the bytes back: the swap is its own
/// inverse.
pub proof fn lemma_swap_is_involution(bytes: Seq<u8>, key: int)
    ensures
        swapped(swapped(bytes, key), key) == bytes,
{
    let once = swapped(bytes, key);
    assert forall|k: int| 0 <= k < bytes.len() implies is_multiple(#[trigger] once[k], key)
        == is_multiple(bytes[k], key) by {
        lemma_swap_keeps_multiples(bytes, key, k);
    }
    assert forall|i: int| 0 <= i < bytes.len() implies swapped(once, key)[i] == bytes[i] by {
        if is_multiple(bytes[i], key) {
            lemma_runs_depend_on_multiples(once, bytes, key, i);
            lemma_run_start_bounds(bytes, key, i);
            lemma_run_end_bounds(bytes, key, i);
            let from = run_start(bytes, key, i);
            let to = run_end(bytes, key, i);
            lemma_runs_of_range(bytes, key, from, to);
            let mirror = from + to - 1 - i;
        }
    }
    assert(swapped(once, key) =~= bytes);
}

} // verus!
