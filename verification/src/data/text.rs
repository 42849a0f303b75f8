//! The text obfuscator of fixed text fields such as map names: every byte
//! is moved down by an amount that depends on whether its index is even or
//! odd, and moved up again on reading.
//!
//! The bytes are raw: nothing is validated, and a byte that would leave the
//! range of a `u8` wraps modulo 256, so that the two directions invert each
//! other on every buffer.
use vstd::prelude::*;

verus! {

/// The amount by which the byte at index `i` is moved: 2 at an even index,
/// 1 at an odd one.
pub open spec fn shift_at(i: int) -> int {
    if i % 2 == 0 {
        2
    } else {
        1
    }
}

/// `text` with every byte moved down by its shift, modulo 256.
pub open spec fn encoded_text(text: Seq<u8>) -> Seq<u8> {
    Seq::new(text.len(), |i: int| ((text[i] - shift_at(i)) % 256) as u8)
}

/// `text` with every byte moved up by its shift, modulo 256.
pub open spec fn decoded_text(text: Seq<u8>) -> Seq<u8> {
    Seq::new(text.len(), |i: int| ((text[i] + shift_at(i)) % 256) as u8)
}

/// The shift of the byte at index `i`.
fn shift_of(i: usize) -> (shift: u8)
    ensures
        shift == shift_at(i as int),
{
    if i % 2 == 0 {
        2
    } else {
        1
    }
}

/// Encodes a text field in place.
pub fn encode_string(buf: &mut [u8])
    ensures
        final(buf)@ == encoded_text(old(buf)@),
{
    let n = buf.len();
    let mut i: usize = 0;
    while i < n
        invariant
            i <= n,
            n == buf@.len(),
            buf@.len() == old(buf)@.len(),
            forall|k: int| 0 <= k < i ==> buf@[k] == encoded_text(old(buf)@)[k],
            forall|k: int| i <= k < n ==> buf@[k] == old(buf)@[k],
        decreases n - i,
    {
        buf[i] = buf[i].wrapping_sub(shift_of(i));
        i += 1;
    }
    assert(buf@ =~= encoded_text(old(buf)@));
}

/// Decodes a text field in place.
pub fn decode_string(buf: &mut [u8])
    ensures
        final(buf)@ == decoded_text(old(buf)@),
{
    let n = buf.len();
    let mut i: usize = 0;
    while i < n
        invariant
            i <= n,
            n == buf@.len(),
            buf@.len() == old(buf)@.len(),
            forall|k: int| 0 <= k < i ==> buf@[k] == decoded_text(old(buf)@)[k],
            forall|k: int| i <= k < n ==> buf@[k] == old(buf)@[k],
        decreases n - i,
    {
        buf[i] = buf[i].wrapping_add(shift_of(i));
        i += 1;
    }
    assert(buf@ =~= decoded_text(old(buf)@));
}

/// Decoding inverts encoding, on every buffer.
pub proof fn lemma_decode_string_inverts_encode(text: Seq<u8>)
    ensures
        decoded_text(encoded_text(text)) == text,
{
    assert(decoded_text(encoded_text(text)) =~= text);
}

/// Encoding inverts decoding, on every buffer.
pub proof fn lemma_encode_string_inverts_decode(text: Seq<u8>)
    ensures
        encoded_text(decoded_text(text)) == text,
{
    assert(encoded_text(decoded_text(text)) =~= text);
}

} // verus!
