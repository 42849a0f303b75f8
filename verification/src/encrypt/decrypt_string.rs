//! The legacy string cipher, from the wire: two letters give one byte, which
//! is moved back down by the multiple of the key that belongs to its
//! position.
//!
//! Malformed input is never refused. A last byte without a partner is
//! dropped, and a byte outside the letters `A` to `X` enters the sum as it
//! is; the result of each pair wraps modulo 256.
use crate::encrypt::encrypt_string::{encrypted_bytes, key_offset, shifted_byte};
use crate::encrypt::lossy::{
    byte_chars, lemma_ascii_bytes_decode, lossy_text, text_from_utf8_lossy,
};
use crate::wrapping::{low_byte, wrapped_byte};
use vstd::arithmetic::div_mod::{lemma_fundamental_div_mod, lemma_sub_mod_noop};
use vstd::prelude::*;
use vstd::utf8::{
    decode_utf8, encode_utf8, encode_utf8_decode_utf8, encode_utf8_valid_utf8, valid_utf8,
};

verus! {

/// The value of the pair of bytes `high` and `low` read as two base-24
/// digits that start at the code of `A`.
pub open spec fn pair_value(high: u8, low: u8) -> int {
    (high - 0x41) * 24 + (low - 0x41)
}

/// The decrypted form of `text` under `key`, half as long as `text` with a
/// byte left over dropped: the pair at `2 * i` and `2 * i + 1` gives the
/// byte `pair_value - (i + 1) * key`, modulo 256.
pub open spec fn decrypted_bytes(text: Seq<u8>, key: int) -> Seq<u8> {
    Seq::new(
        text.len() / 2,
        |i: int| wrapped_byte(pair_value(text[2 * i], text[2 * i + 1]) - (i + 1) * key),
    )
}

/// Decrypts the bytes of an encrypted text.
pub fn decrypt_string_bytes(text: &[u8], key: i32) -> (decrypted: Vec<u8>)
    ensures
        decrypted@ == decrypted_bytes(text@, key as int),
{
    let mut decrypted: Vec<u8> = Vec::new();
    let n = text.len();
    let pairs = n / 2;
    let mut i: usize = 0;
    while i < pairs
        invariant
            i <= pairs,
            n == text@.len(),
            pairs == n / 2,
            decrypted@.len() == i,
            forall|k: int|
                0 <= k < i ==> decrypted@[k] == #[trigger] decrypted_bytes(text@, key as int)[k],
        decreases pairs - i,
    {
        let high: i128 = text[2 * i] as i128 - 0x41;
        let low: i128 = text[2 * i + 1] as i128 - 0x41;
        decrypted.push(low_byte(high * 24 + low - key_offset(i, key)));
        i += 1;
    }
    assert(decrypted@ =~= decrypted_bytes(text@, key as int));
    decrypted
}

/// Decrypts a text of the legacy string cipher. The bytes of the encrypted
/// text are those of its UTF-8 form. The decrypted bytes are read as UTF-8;
/// where they are not valid UTF-8, the standard library's lossy conversion
/// decides the text.
pub fn decrypt_string(encrypted_str: &str, key: i32) -> (decrypted: String)
    ensures
        decrypted@ == lossy_text(decrypted_bytes(encode_utf8(encrypted_str@), key as int)),
        valid_utf8(decrypted_bytes(encode_utf8(encrypted_str@), key as int)) ==> decrypted@
            == decode_utf8(decrypted_bytes(encode_utf8(encrypted_str@), key as int)),
{
    let bytes = decrypt_string_bytes(encrypted_str.as_bytes(), key);
    text_from_utf8_lossy(bytes.as_slice())
}

/// Decrypting the encrypted bytes of a text with the same key gives the
/// bytes of the text back, for every text and key.
pub proof fn lemma_decrypt_string_inverts_encrypt(text: Seq<u8>, key: int)
    ensures
        decrypted_bytes(encrypted_bytes(text, key), key) == text,
{
    let encrypted = encrypted_bytes(text, key);
    assert forall|i: int| 0 <= i < text.len() implies decrypted_bytes(encrypted, key)[i]
        == text[i] by {
        let moved = shifted_byte(text[i], i, key);
        let offset = (i + 1) * key;
        lemma_fundamental_div_mod(moved as int, 24);
        lemma_sub_mod_noop(text[i] + offset, offset, 256);
        lemma_sub_mod_noop(moved as int, offset, 256);
    }
    assert(decrypted_bytes(encrypted, key) =~= text);
}

/// Decrypting an encrypted text with the same key gives the text back, for
/// every text and key: the decrypted bytes of what [`encrypt_string`]
/// returns are valid UTF-8 and decode to the text, so that
/// [`decrypt_string`] returns the text.
///
/// [`encrypt_string`]: crate::encrypt::encrypt_string::encrypt_string
pub proof fn lemma_decrypt_string_inverts_encrypt_text(text: Seq<char>, key: int)
    ensures
        valid_utf8(
            decrypted_bytes(
                encode_utf8(byte_chars(encrypted_bytes(encode_utf8(text), key))),
                key,
            ),
        ),
        decode_utf8(
            decrypted_bytes(
                encode_utf8(byte_chars(encrypted_bytes(encode_utf8(text), key))),
                key,
            ),
        ) == text,
{
    let plain = encode_utf8(text);
    let wire = encrypted_bytes(plain, key);
    lemma_ascii_bytes_decode(wire);
    lemma_decrypt_string_inverts_encrypt(plain, key);
    encode_utf8_valid_utf8(text);
    encode_utf8_decode_utf8(text);
}

} // verus!
