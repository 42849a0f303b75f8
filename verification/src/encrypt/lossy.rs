//! Text from bytes that may not be valid UTF-8.
use vstd::prelude::*;
use vstd::utf8::{
    decode_utf8, encode_utf8, encode_utf8_decode_utf8, encode_utf8_valid_utf8, is_ascii_chars,
    is_ascii_chars_encode_utf8, valid_utf8,
};

verus! {

/// The characters that `String::from_utf8_lossy` makes of `bytes`: the
/// decoded text where `bytes` are valid UTF-8, else the text with each
/// invalid part replaced by U+FFFD as the standard library chooses the
/// parts.
pub uninterp spec fn lossy_text(bytes: Seq<u8>) -> Seq<char>;

/// The characters whose codes are the given bytes, one for one.
pub open spec fn byte_chars(bytes: Seq<u8>) -> Seq<char> {
    Seq::new(bytes.len(), |i: int| bytes[i] as char)
}

/// Wraps `String::from_utf8_lossy`. Believed, not proved: the text is a
/// function of the bytes alone, named [`lossy_text`], and valid UTF-8 is
/// decoded as it stands, with nothing replaced.
#[verifier::external_body]
pub(crate) fn text_from_utf8_lossy(bytes: &[u8]) -> (text: String)
    ensures
        text@ == lossy_text(bytes@),
        valid_utf8(bytes@) ==> text@ == decode_utf8(bytes@),
{
    String::from_utf8_lossy(bytes).into_owned()
}

/// Bytes below 128 are valid UTF-8 and decode to the characters with those
/// codes.
pub proof fn lemma_ascii_bytes_decode(bytes: Seq<u8>)
    requires
        forall|i: int| 0 <= i < bytes.len() ==> bytes[i] < 128,
    ensures
        valid_utf8(bytes),
        decode_utf8(bytes) == byte_chars(bytes),
        encode_utf8(byte_chars(bytes)) == bytes,
{
    let chars = byte_chars(bytes);
    assert(is_ascii_chars(chars));
    is_ascii_chars_encode_utf8(chars);
    assert(encode_utf8(chars) =~= bytes);
    encode_utf8_valid_utf8(chars);
    encode_utf8_decode_utf8(chars);
}

} // verus!
