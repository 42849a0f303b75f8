//! The writer: a growing byte buffer to which fields are appended in order,
//! numbers through the number codec and obfuscated text through the text
//! obfuscator.
use crate::data::number::{
    encode_number, encoded_number, normalize, normalized, CHAR_MAX, INT_MAX, SHORT_MAX, THREE_MAX,
};
use crate::data::text::{encode_string, encoded_text};
use vstd::prelude::*;

verus! {

/// The byte that ends a text of open length and parts a packet into chunks.
pub const BREAK_BYTE: u8 = 0xff;

/// Why a number could not be written.
#[derive(Debug, Clone, Copy, PartialEq, Eq)]
pub enum EoWriterError {
    /// The number, after sign normalization, does not fit the requested
    /// width. The error carries the normalized value.
    InvalidValue(i64),
}

/// The number of values that `width` bytes of the number codec can hold,
/// for a width from one to four.
pub open spec fn width_limit(width: int) -> int {
    if width == 1 {
        CHAR_MAX as int
    } else if width == 2 {
        SHORT_MAX as int
    } else if width == 3 {
        THREE_MAX as int
    } else {
        INT_MAX as int
    }
}

/// What a successful write of `number` at `width` bytes appends: the first
/// `width` bytes of its four-byte encoding.
pub open spec fn number_field(number: int, width: int) -> Seq<u8> {
    encoded_number(normalized(number)).subrange(0, width)
}

/// How a write of `number` at `width` bytes ends: it succeeds exactly when
/// the normalized number is below the limit of the width, and then appends
/// the field; else it fails with the normalized number and appends nothing.
pub open spec fn number_written(
    before: Seq<u8>,
    after: Seq<u8>,
    number: int,
    width: int,
    result: Result<(), EoWriterError>,
) -> bool {
    match result {
        Ok(()) => normalized(number) < width_limit(width) && after == before + number_field(
            number,
            width,
        ),
        Err(e) => normalized(number) >= width_limit(width) && e == EoWriterError::InvalidValue(
            normalized(number) as i64,
        ) && after == before,
    }
}

/// A byte buffer under construction.
pub struct EoWriter {
    data: Vec<u8>,
}

impl EoWriter {
    /// The bytes written so far.
    pub closed spec fn bytes(&self) -> Seq<u8> {
        self.data@
    }

    /// A writer that holds no bytes.
    pub fn new() -> (writer: EoWriter)
        ensures
            writer.bytes() == Seq::<u8>::empty(),
    {
        EoWriter { data: Vec::new() }
    }

    /// The number of bytes written so far.
    pub fn len(&self) -> (len: usize)
        ensures
            len == self.bytes().len(),
    {
        self.data.len()
    }

    /// Appends one raw byte.
    pub fn add_byte(&mut self, byte: u8)
        ensures
            final(self).bytes() == old(self).bytes().push(byte),
    {
        self.data.push(byte);
    }

    /// Appends raw bytes.
    pub fn add_bytes(&mut self, bytes: &[u8])
        ensures
            final(self).bytes() == old(self).bytes() + bytes@,
    {
        let n = bytes.len();
        let mut i: usize = 0;
        while i < n
            invariant
                i <= n,
                n == bytes@.len(),
                self.data@ == old(self).data@ + bytes@.subrange(0, i as int),
            decreases n - i,
        {
            self.data.push(bytes[i]);
            assert(bytes@.subrange(0, i as int).push(bytes@[i as int]) =~= bytes@.subrange(
                0,
                i + 1,
            ));
            i += 1;
        }
        assert(bytes@.subrange(0, n as int) =~= bytes@);
    }

    /// Appends `number` as `width` bytes of the number codec, where it fits.
    fn add_number(&mut self, number: i32, width: usize, limit: i64) -> (result: Result<
        (),
        EoWriterError,
    >)
        requires
            1 <= width <= 4,
            limit == width_limit(width as int),
        ensures
            number_written(
                old(self).bytes(),
                final(self).bytes(),
                number as int,
                width as int,
                result,
            ),
    {
        let value = normalize(number);
        if value >= limit {
            return Err(EoWriterError::InvalidValue(value));
        }
        match encode_number(number) {
            Ok(encoded) => {
                self.add_bytes(vstd::slice::slice_subrange(encoded.as_slice(), 0, width));
                Ok(())
            },
            Err(e) => Err(e),
        }
    }

    /// Appends `number` as one byte. Fails, and appends nothing, exactly when
    /// the normalized number reaches `CHAR_MAX`.
    pub fn add_char(&mut self, number: i32) -> (result: Result<(), EoWriterError>)
        ensures
            number_written(old(self).bytes(), final(self).bytes(), number as int, 1, result),
    {
        self.add_number(number, 1, CHAR_MAX as i64)
    }

    /// Appends `number` as two bytes. Fails, and appends nothing, exactly
    /// when the normalized number reaches `SHORT_MAX`.
    pub fn add_short(&mut self, number: i32) -> (result: Result<(), EoWriterError>)
        ensures
            number_written(old(self).bytes(), final(self).bytes(), number as int, 2, result),
    {
        self.add_number(number, 2, SHORT_MAX as i64)
    }

    /// Appends `number` as three bytes. Fails, and appends nothing, exactly
    /// when the normalized number reaches `THREE_MAX`.
    pub fn add_three(&mut self, number: i32) -> (result: Result<(), EoWriterError>)
        ensures
            number_written(old(self).bytes(), final(self).bytes(), number as int, 3, result),
    {
        self.add_number(number, 3, THREE_MAX as i64)
    }

    /// Appends `number` as four bytes. Fails, and appends nothing, exactly
    /// when the normalized number reaches `INT_MAX`.
    pub fn add_int(&mut self, number: i32) -> (result: Result<(), EoWriterError>)
        ensures
            number_written(old(self).bytes(), final(self).bytes(), number as int, 4, result),
    {
        self.add_number(number, 4, INT_MAX)
    }

    /// Appends a text of open length, followed by the break byte.
    pub fn add_break_string(&mut self, text: &[u8])
        ensures
            final(self).bytes() == (old(self).bytes() + text@).push(BREAK_BYTE),
    {
        self.add_bytes(text);
        self.add_byte(BREAK_BYTE);
    }

    /// Appends a text behind its length, which is written as one byte of the
    /// number codec. Fails, and appends nothing, exactly when the length
    /// reaches `CHAR_MAX`; the error carries the length.
    pub fn add_prefix_string(&mut self, text: &[u8]) -> (result: Result<(), EoWriterError>)
        ensures
            match result {
                Ok(()) => text@.len() < CHAR_MAX && final(self).bytes() == old(self).bytes()
                    + number_field(text@.len() as int, 1) + text@,
                Err(e) => text@.len() >= CHAR_MAX && e == EoWriterError::InvalidValue(
                    text@.len() as i64,
                ) && final(self).bytes() == old(self).bytes(),
            },
    {
        let n = text.len();
        if n >= CHAR_MAX as usize {
            return Err(EoWriterError::InvalidValue(n as i64));
        }
        match self.add_char(n as i32) {
            Ok(()) => {
                self.add_bytes(text);
                Ok(())
            },
            Err(e) => Err(e),
        }
    }

    /// Appends a text of fixed length in its obfuscated form.
    pub fn add_encoded_string(&mut self, text: &[u8])
        ensures
            final(self).bytes() == old(self).bytes() + encoded_text(text@),
    {
        let mut copy = vstd::slice::slice_to_vec(text);
        encode_string(copy.as_mut_slice());
        self.add_bytes(copy.as_slice());
    }

    /// The bytes written so far.
    pub fn to_byte_array(&self) -> (bytes: Vec<u8>)
        ensures
            bytes@ == self.bytes(),
    {
        self.data.clone()
    }
}

} // verus!
