//! The legacy string cipher, towards the wire: every byte of the text is
//! moved up by a multiple of the key that grows with its position, and is
//! then written as two base-24 digits, each a letter from `A` on.
use crate::encrypt::lossy::{byte_chars, lemma_ascii_bytes_decode, text_from_utf8_lossy};
use crate::wrapping::{low_byte, wrapped_byte};
use vstd::prelude::*;
use vstd::utf8::encode_utf8;

verus! {

/// The byte at position `i` after the move: `byte + (i + 1) * key`, modulo
/// 256.
pub open spec fn shifted_byte(byte: u8, i: int, key: int) -> u8 {
    wrapped_byte(byte + (i + 1) * key)
}

/// The encrypted form of `text` under `key`, twice as long as `text`: the
/// moved byte of position `i` stands at `2 * i` as its quotient by 24 and
/// at `2 * i + 1` as its remainder, each plus the code of `A`.
pub open spec fn encrypted_bytes(text: Seq<u8>, key: int) -> Seq<u8> {
    Seq::new(
        2 * text.len(),
        |j: int|
            if j % 2 == 0 {
                (shifted_byte(text[j / 2], j / 2, key) / 24 + 0x41) as u8
            } else {
                (shifted_byte(text[j / 2], j / 2, key) % 24 + 0x41) as u8
            },
    )
}

/// The product `(i + 1) * key`, which fits an `i128` for every index and
/// key.
pub(crate) fn key_offset(i: usize, key: i32) -> (offset: i128)
    ensures
        offset == (i + 1) * key,
        -0x1_0000_0000_0000_0000_0000_0000 < offset < 0x1_0000_0000_0000_0000_0000_0000,
{
    let count: i128 = i as i128 + 1;
    let step: i128 = key as i128;
    assert(-0x1_0000_0000_0000_0000_0000_0000 < count * step < 0x1_0000_0000_0000_0000_0000_0000)
        by (nonlinear_arith)
        requires
            0 < count <= 0x1_0000_0000_0000_0000,
            -0x8000_0000 <= step < 0x8000_0000,
    ;
    count * step
}

/// Encrypts the bytes of a text. The result holds letters from `A` to `X`
/// only.
pub fn encrypt_string_bytes(text: &[u8], key: i32) -> (encrypted: Vec<u8>)
    ensures
        encrypted@ == encrypted_bytes(text@, key as int),
        forall|j: int| 0 <= j < encrypted@.len() ==> 0x41 <= #[trigger] encrypted@[j] < 0x59,
{
    let mut encrypted: Vec<u8> = Vec::new();
    let n = text.len();
    let mut i: usize = 0;
    while i < n
        invariant
            i <= n,
            n == text@.len(),
            encrypted@.len() == 2 * i,
            forall|j: int|
                0 <= j < 2 * i ==> #[trigger] encrypted@[j] == encrypted_bytes(
                    text@,
                    key as int,
                )[j],
            forall|j: int| 0 <= j < 2 * i ==> 0x41 <= #[trigger] encrypted@[j] < 0x59,
        decreases n - i,
    {
        let moved: u8 = low_byte(text[i] as i128 + key_offset(i, key));
        encrypted.push(moved / 24 + 0x41);
        encrypted.push(moved % 24 + 0x41);
        i += 1;
    }
    assert(encrypted@ =~= encrypted_bytes(text@, key as int));
    encrypted
}

/// Encrypts a text with the legacy string cipher. The bytes of the text are
/// those of its UTF-8 form, and the result is the encrypted bytes read as
/// characters.
pub fn encrypt_string(text: &str, key: i32) -> (encrypted: String)
    ensures
        encrypted@ == byte_chars(encrypted_bytes(encode_utf8(text@), key as int)),
{
    let bytes = encrypt_string_bytes(text.as_bytes(), key);
    proof {
        lemma_ascii_bytes_decode(bytes@);
    }
    text_from_utf8_lossy(bytes.as_slice())
}

} // verus!
