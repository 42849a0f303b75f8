//! The reader: a byte buffer with a cursor, from which fields are taken in
//! order, numbers through the number codec and obfuscated text through the
//! text obfuscator. A read that asks for more bytes than remain fails and
//! leaves the cursor where it was.
use crate::data::eo_writer::{number_field, width_limit, BREAK_BYTE};
use crate::data::number::{
    decode_number, digit_at, digits_value, encoded_number, lemma_decode_number_inverts_encode,
    wrapped_i32,
};
use crate::data::text::{decode_string, decoded_text};
use vstd::prelude::*;

verus! {

/// Why a read failed.
#[derive(Debug, Clone, Copy, PartialEq, Eq)]
pub enum EoReaderError {
    /// More bytes were asked for than remain.
    BufferUnderrun,
}

/// The index of the first break byte of `bytes` at or after `from`, or the
/// length of `bytes` where there is none.
pub open spec fn break_index(bytes: Seq<u8>, from: int) -> int
    decreases bytes.len() - from,
{
    if 0 <= from < bytes.len() && bytes[from] != BREAK_BYTE {
        break_index(bytes, from + 1)
    } else {
        from
    }
}

/// The index that [`break_index`] gives lies between `from` and the end, no
/// break byte stands before it, and one stands at it unless it is the end.
pub proof fn lemma_break_index(bytes: Seq<u8>, from: int)
    requires
        0 <= from <= bytes.len(),
    ensures
        from <= break_index(bytes, from) <= bytes.len(),
        forall|k: int| from <= k < break_index(bytes, from) ==> bytes[k] != BREAK_BYTE,
        break_index(bytes, from) < bytes.len() ==> bytes[break_index(bytes, from)] == BREAK_BYTE,
    decreases bytes.len() - from,
{
    if from < bytes.len() && bytes[from] != BREAK_BYTE {
        lemma_break_index(bytes, from + 1);
    }
}

/// Where the cursor stands after the chunk that holds index `from` was
/// left: past the next break byte, or at the end where there is none.
pub open spec fn chunk_end(bytes: Seq<u8>, from: int) -> int {
    if break_index(bytes, from) < bytes.len() {
        break_index(bytes, from) + 1
    } else {
        bytes.len() as int
    }
}

/// How a read of one byte ends: it succeeds exactly when a byte remains,
/// and then takes it and moves the cursor by one; else it fails and the
/// cursor stays.
pub open spec fn byte_read(
    bytes: Seq<u8>,
    before: int,
    after: int,
    result: Result<u8, EoReaderError>,
) -> bool {
    match result {
        Ok(byte) => before < bytes.len() && byte == bytes[before] && after == before + 1,
        Err(e) => before >= bytes.len() && e == EoReaderError::BufferUnderrun && after == before,
    }
}

/// How a read of `length` bytes ends, with `taken` for the bytes it
/// returned: it succeeds exactly when `length` bytes remain, and then takes
/// them and moves the cursor past them; else it fails and the cursor stays.
pub open spec fn bytes_read(
    bytes: Seq<u8>,
    before: int,
    after: int,
    length: int,
    taken: Result<Seq<u8>, EoReaderError>,
) -> bool {
    match taken {
        Ok(field) => before + length <= bytes.len() && field == bytes.subrange(
            before,
            before + length,
        ) && after == before + length,
        Err(e) => before + length > bytes.len() && e == EoReaderError::BufferUnderrun && after
            == before,
    }
}

/// How a read of a number of `width` bytes ends: as a read of that many
/// bytes, with the number decoded from them.
pub open spec fn number_read(
    bytes: Seq<u8>,
    before: int,
    after: int,
    width: int,
    result: Result<i32, EoReaderError>,
) -> bool {
    match result {
        Ok(number) => before + width <= bytes.len() && number == wrapped_i32(
            digits_value(bytes.subrange(before, before + width)),
        ) && after == before + width,
        Err(e) => before + width > bytes.len() && e == EoReaderError::BufferUnderrun && after
            == before,
    }
}

/// How a read of an obfuscated text of `length` bytes ends: as a read of
/// that many bytes, with the obfuscation removed from them.
pub open spec fn encoded_string_read(
    bytes: Seq<u8>,
    before: int,
    after: int,
    length: int,
    taken: Result<Seq<u8>, EoReaderError>,
) -> bool {
    match taken {
        Ok(text) => before + length <= bytes.len() && text == decoded_text(
            bytes.subrange(before, before + length),
        ) && after == before + length,
        Err(e) => before + length > bytes.len() && e == EoReaderError::BufferUnderrun && after
            == before,
    }
}

/// How a read of a text behind its length ends. The length is the digit of
/// the byte at the cursor. The read succeeds exactly when that byte and as
/// many bytes behind it as the length says remain, and then takes those
/// bytes and moves the cursor past them; else it fails and the cursor stays.
pub open spec fn prefix_string_read(
    bytes: Seq<u8>,
    before: int,
    after: int,
    taken: Result<Seq<u8>, EoReaderError>,
) -> bool {
    let length = digit_at(bytes, before);
    match taken {
        Ok(text) => before + 1 + length <= bytes.len() && text == bytes.subrange(
            before + 1,
            before + 1 + length,
        ) && after == before + 1 + length,
        Err(e) => before + 1 + length > bytes.len() && e == EoReaderError::BufferUnderrun && after
            == before,
    }
}

/// The view of what a read of bytes returned.
pub open spec fn taken_bytes(result: Result<Vec<u8>, EoReaderError>) -> Result<
    Seq<u8>,
    EoReaderError,
> {
    match result {
        Ok(field) => Ok(field@),
        Err(e) => Err(e),
    }
}

/// A byte buffer with a read cursor.
pub struct EoReader {
    data: Vec<u8>,
    position: usize,
}

impl EoReader {
    #[verifier::type_invariant]
    spec fn cursor_in_bounds(&self) -> bool {
        self.position <= self.data@.len()
    }

    /// All the bytes of the buffer, read or not.
    pub closed spec fn bytes(&self) -> Seq<u8> {
        self.data@
    }

    /// The number of bytes read so far.
    pub closed spec fn cursor(&self) -> int {
        self.position as int
    }

    /// A reader at the start of `data`.
    pub fn new(data: Vec<u8>) -> (reader: EoReader)
        ensures
            reader.bytes() == data@,
            reader.cursor() == 0,
    {
        EoReader { data, position: 0 }
    }

    /// The cursor: the number of bytes read so far.
    pub fn position(&self) -> (position: usize)
        ensures
            position == self.cursor(),
            position <= self.bytes().len(),
    {
        proof {
            use_type_invariant(self);
        }
        self.position
    }

    /// The number of bytes that remain to be read.
    pub fn remaining(&self) -> (remaining: usize)
        ensures
            remaining == self.bytes().len() - self.cursor(),
    {
        proof {
            use_type_invariant(self);
        }
        self.data.len() - self.position
    }

    /// Takes one raw byte.
    pub fn get_byte(&mut self) -> (result: Result<u8, EoReaderError>)
        ensures
            final(self).bytes() == old(self).bytes(),
            byte_read(old(self).bytes(), old(self).cursor(), final(self).cursor(), result),
    {
        proof {
            use_type_invariant(&*self);
        }
        if self.position < self.data.len() {
            let byte = self.data[self.position];
            self.position = self.position + 1;
            Ok(byte)
        } else {
            Err(EoReaderError::BufferUnderrun)
        }
    }

    /// Takes `length` raw bytes.
    pub fn get_bytes(&mut self, length: usize) -> (result: Result<Vec<u8>, EoReaderError>)
        ensures
            final(self).bytes() == old(self).bytes(),
            bytes_read(
                old(self).bytes(),
                old(self).cursor(),
                final(self).cursor(),
                length as int,
                taken_bytes(result),
            ),
    {
        proof {
            use_type_invariant(&*self);
        }
        if length > self.data.len() - self.position {
            return Err(EoReaderError::BufferUnderrun);
        }
        let end = self.position + length;
        let field = vstd::slice::slice_to_vec(
            vstd::slice::slice_subrange(self.data.as_slice(), self.position, end),
        );
        self.position = end;
        Ok(field)
    }

    /// Takes a number of `width` bytes.
    fn get_number(&mut self, width: usize) -> (result: Result<i32, EoReaderError>)
        ensures
            final(self).bytes() == old(self).bytes(),
            number_read(
                old(self).bytes(),
                old(self).cursor(),
                final(self).cursor(),
                width as int,
                result,
            ),
    {
        proof {
            use_type_invariant(&*self);
        }
        if width > self.data.len() - self.position {
            return Err(EoReaderError::BufferUnderrun);
        }
        let end = self.position + width;
        let number = decode_number(
            vstd::slice::slice_subrange(self.data.as_slice(), self.position, end),
        );
        self.position = end;
        Ok(number)
    }

    /// Takes a number of one byte.
    pub fn get_char(&mut self) -> (result: Result<i32, EoReaderError>)
        ensures
            final(self).bytes() == old(self).bytes(),
            number_read(old(self).bytes(), old(self).cursor(), final(self).cursor(), 1, result),
    {
        self.get_number(1)
    }

    /// Takes a number of two bytes.
    pub fn get_short(&mut self) -> (result: Result<i32, EoReaderError>)
        ensures
            final(self).bytes() == old(self).bytes(),
            number_read(old(self).bytes(), old(self).cursor(), final(self).cursor(), 2, result),
    {
        self.get_number(2)
    }

    /// Takes a number of three bytes.
    pub fn get_three(&mut self) -> (result: Result<i32, EoReaderError>)
        ensures
            final(self).bytes() == old(self).bytes(),
            number_read(old(self).bytes(), old(self).cursor(), final(self).cursor(), 3, result),
    {
        self.get_number(3)
    }

    /// Takes a number of four bytes.
    pub fn get_int(&mut self) -> (result: Result<i32, EoReaderError>)
        ensures
            final(self).bytes() == old(self).bytes(),
            number_read(old(self).bytes(), old(self).cursor(), final(self).cursor(), 4, result),
    {
        self.get_number(4)
    }

    /// Takes a text of `length` bytes and removes its obfuscation.
    pub fn get_encoded_string(&mut self, length: usize) -> (result: Result<Vec<u8>, EoReaderError>)
        ensures
            final(self).bytes() == old(self).bytes(),
            encoded_string_read(
                old(self).bytes(),
                old(self).cursor(),
                final(self).cursor(),
                length as int,
                taken_bytes(result),
            ),
    {
        match self.get_bytes(length) {
            Ok(mut text) => {
                decode_string(text.as_mut_slice());
                Ok(text)
            },
            Err(e) => Err(e),
        }
    }

    /// Takes a text of open length: the bytes up to the next break byte, or
    /// to the end where there is none. The cursor moves past the text and
    /// past the break byte that ended it. The call cannot fail.
    pub fn get_break_string(&mut self) -> (text: Vec<u8>)
        ensures
            final(self).bytes() == old(self).bytes(),
            text@ == old(self).bytes().subrange(
                old(self).cursor(),
                break_index(old(self).bytes(), old(self).cursor()),
            ),
            final(self).cursor() == chunk_end(old(self).bytes(), old(self).cursor()),
    {
        proof {
            use_type_invariant(&*self);
        }
        let end = self.find_break();
        let text = vstd::slice::slice_to_vec(
            vstd::slice::slice_subrange(self.data.as_slice(), self.position, end),
        );
        if end < self.data.len() {
            self.position = end + 1;
        } else {
            self.position = end;
        }
        text
    }

    /// Moves the cursor to the start of the next chunk: past the next break
    /// byte, or to the end where there is none.
    pub fn next_chunk(&mut self)
        ensures
            final(self).bytes() == old(self).bytes(),
            final(self).cursor() == chunk_end(old(self).bytes(), old(self).cursor()),
    {
        proof {
            use_type_invariant(&*self);
        }
        let end = self.find_break();
        if end < self.data.len() {
            self.position = end + 1;
        } else {
            self.position = end;
        }
    }

    /// The index of the next break byte at or after the cursor, or the
    /// length of the buffer.
    fn find_break(&self) -> (end: usize)
        ensures
            end == break_index(self.bytes(), self.cursor()),
            self.cursor() <= end <= self.bytes().len(),
    {
        proof {
            use_type_invariant(self);
        }
        let n = self.data.len();
        let mut end: usize = self.position;
        while end < n && self.data[end] != BREAK_BYTE
            invariant
                self.position <= end <= n,
                n == self.data@.len(),
                break_index(self.data@, self.position as int) == break_index(
                    self.data@,
                    end as int,
                ),
            decreases n - end,
        {
            end += 1;
        }
        end
    }

    /// Takes a text that stands behind its length, the length being a number
    /// of one byte. Fails, and leaves the cursor, where no byte remains for
    /// the length or fewer bytes remain than the length says.
    pub fn get_prefix_string(&mut self) -> (result: Result<Vec<u8>, EoReaderError>)
        ensures
            final(self).bytes() == old(self).bytes(),
            prefix_string_read(
                old(self).bytes(),
                old(self).cursor(),
                final(self).cursor(),
                taken_bytes(result),
            ),
    {
        let start = self.position;
        match self.get_char() {
            Ok(length) => {
                match self.get_bytes(length as usize) {
                    Ok(text) => Ok(text),
                    Err(e) => {
                        self.position = start;
                        Err(e)
                    },
                }
            },
            Err(e) => Err(e),
        }
    }
}

/// A number that was written at a width reads back at that width: for
/// every non-negative `number` below the limit of `width`, the field that
/// the writer appends for it decodes to `number`.
pub proof fn lemma_number_field_reads_back(number: i32, width: int)
    requires
        1 <= width <= 4,
        0 <= number < width_limit(width),
    ensures
        number_field(number as int, width).len() == width,
        wrapped_i32(digits_value(number_field(number as int, width))) == number,
{
    let whole = encoded_number(number as int);
    let field = number_field(number as int, width);
    lemma_decode_number_inverts_encode(number as int);
    assert forall|i: int| 0 <= i < 4 implies digit_at(field, i) == digit_at(whole, i) by {
        if i < width {
            assert(field[i] == whole[i]);
        }
    }
}

} // verus!
