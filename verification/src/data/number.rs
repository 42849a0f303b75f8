//! The number codec: non-negative integers written as base-253 digits, one
//! digit per byte, least significant digit first.
//!
//! A digit `d` is written as the byte `d + 1`, so an encoded number never
//! holds the bytes `0` or `255`. A position above the most significant digit
//! holds the sentinel byte `254`, which reads back as the digit zero.
use crate::data::eo_writer::EoWriterError;
use crate::wrapping::{low_byte, wrapped_byte};
use vstd::arithmetic::div_mod::{
    lemma_basic_div, lemma_breakdown, lemma_fundamental_div_mod, lemma_mod_bound, lemma_mod_mod,
    lemma_small_mod,
};
use vstd::prelude::*;

verus! {

/// The number of values of an encoded integer of one byte.
pub const CHAR_MAX: i32 = 253;

/// The number of values of an encoded integer of two bytes.
pub const SHORT_MAX: i32 = 64_009;

/// The number of values of an encoded integer of three bytes.
pub const THREE_MAX: i32 = 16_194_277;

/// The number of values of an encoded integer of four bytes.
pub const INT_MAX: i64 = 4_097_152_081;

/// The byte that marks an unused digit position.
pub const SENTINEL: u8 = 254;

/// Each limit is the one before it times `CHAR_MAX`: the codec is
/// positional with base 253.
pub proof fn lemma_limits_are_powers_of_char_max()
    ensures
        SHORT_MAX == CHAR_MAX * CHAR_MAX,
        THREE_MAX == SHORT_MAX * CHAR_MAX,
        INT_MAX == THREE_MAX * CHAR_MAX,
{
}

/// Whether `bytes` are well-formed as an encoded integer: every byte lies
/// between 1 and the sentinel, so neither `0` nor `255` occurs.
pub open spec fn is_encoded_integer(bytes: Seq<u8>) -> bool {
    forall|i: int| 0 <= i < bytes.len() ==> 1 <= #[trigger] bytes[i] <= SENTINEL
}

/// The value that a signed input stands for: a negative input is taken as
/// its magnitude moved up by `i32::MAX`, a quirk that the protocol keeps.
pub open spec fn normalized(number: int) -> int {
    if number < 0 {
        -number + i32::MAX
    } else {
        number
    }
}

/// The value that `number` stands for, as [`encode_number`] takes it.
pub fn normalize(number: i32) -> (value: i64)
    ensures
        value == normalized(number as int),
{
    if number < 0 {
        -(number as i64) + (i32::MAX as i64)
    } else {
        number as i64
    }
}

/// The byte at the digit position whose weight is `unit`: the sentinel
/// while `value` is below `unit`, else the base-253 digit of `value` at that
/// position, plus one.
pub open spec fn digit_byte(value: int, unit: int) -> u8 {
    if value >= unit {
        ((value / unit) % 253 + 1) as u8
    } else {
        SENTINEL
    }
}

/// The four bytes of `value`, for `0 <= value < INT_MAX`.
pub open spec fn encoded_number(value: int) -> Seq<u8> {
    seq![
        (value % 253 + 1) as u8,
        digit_byte(value, 253),
        digit_byte(value, 64_009),
        digit_byte(value, 16_194_277),
    ]
}

/// A value reduced below `unit * 253` splits into its base-253 digit at
/// the position of weight `unit` and the value reduced below `unit`.
proof fn lemma_digit_step(value: int, unit: int)
    requires
        0 <= value,
        0 < unit,
    ensures
        (value % (unit * 253)) % unit == value % unit,
        (value % (unit * 253)) / unit == (value / unit) % 253,
        0 <= (value / unit) % 253 < 253,
        value < unit ==> value % unit == value && value / unit == 0,
{
    lemma_mod_mod(value, unit, 253);
    lemma_breakdown(value, unit, 253);
    lemma_mod_bound(value, unit);
    let digit = (value / unit) % 253;
    let low = value % unit;
    assert((unit * digit + low) / unit == digit) by (nonlinear_arith)
        requires
            0 <= low < unit,
    ;
    if value < unit {
        lemma_small_mod(value as nat, unit as nat);
        lemma_basic_div(value, unit);
    }
}

/// Writes `number` as four bytes.
///
/// A negative `number` is first normalized (see [`normalized`]). The call
/// fails exactly when the normalized value reaches `INT_MAX`, and the error
/// then carries that value.
pub fn encode_number(number: i32) -> (result: Result<[u8; 4], EoWriterError>)
    ensures
        match result {
            Ok(bytes) => normalized(number as int) < INT_MAX && bytes@ == encoded_number(
                normalized(number as int),
            ),
            Err(e) => normalized(number as int) >= INT_MAX && e == EoWriterError::InvalidValue(
                normalized(number as int) as i64,
            ),
        },
        result is Ok ==> is_encoded_integer(result->Ok_0@),
{
    let mut bytes: [u8; 4] = [254, 254, 254, 254];
    let whole: i64 = normalize(number);
    if whole >= INT_MAX {
        return Err(EoWriterError::InvalidValue(whole));
    }
    let ghost value = whole as int;
    let mut rest: i64 = whole;
    proof {
        lemma_digit_step(value, 16_194_277);
        lemma_digit_step(value, 64_009);
        lemma_digit_step(value, 253);
        lemma_small_mod(value as nat, INT_MAX as nat);
    }
    if whole >= THREE_MAX as i64 {
        bytes[3] = (rest / THREE_MAX as i64) as u8 + 1;
        rest = rest % THREE_MAX as i64;
    }
    if whole >= SHORT_MAX as i64 {
        bytes[2] = (rest / SHORT_MAX as i64) as u8 + 1;
        rest = rest % SHORT_MAX as i64;
    }
    if whole >= CHAR_MAX as i64 {
        bytes[1] = (rest / CHAR_MAX as i64) as u8 + 1;
        rest = rest % CHAR_MAX as i64;
    }
    bytes[0] = rest as u8 + 1;
    assert(bytes@ =~= encoded_number(value));
    Ok(bytes)
}

/// The number of values that five base-253 digits can hold.
pub open spec fn five_byte_limit() -> int {
    253 * INT_MAX
}

/// The five bytes that [`encode_number_64`] writes for `value`.
///
/// For `0 <= value < 253^5` these are the five base-253 digits of `value`,
/// each plus one, with the sentinel above the most significant digit. No
/// input is refused: a most significant digit that does not fit its byte,
/// and the low byte of a negative input, wrap modulo 256.
pub open spec fn encoded_number_64(value: int) -> Seq<u8> {
    seq![
        if value >= 0 {
            (value % 253 + 1) as u8
        } else {
            wrapped_byte(value + 1)
        },
        digit_byte(value, 253),
        digit_byte(value, 64_009),
        digit_byte(value, 16_194_277),
        if value >= 4_097_152_081 {
            wrapped_byte(value / 4_097_152_081 + 1)
        } else {
            SENTINEL
        },
    ]
}

/// Writes `number` as five bytes. Every input is accepted, so the result is
/// always `Ok`.
pub fn encode_number_64(number: i64) -> (result: Result<[u8; 5], EoWriterError>)
    ensures
        result is Ok,
        result->Ok_0@ == encoded_number_64(number as int),
        0 <= number < five_byte_limit() ==> is_encoded_integer(result->Ok_0@),
{
    let mut bytes: [u8; 5] = [254, 254, 254, 254, 254];
    let ghost value = number as int;
    let mut rest: i64 = number;
    proof {
        if value >= 0 {
            lemma_digit_step(value, 4_097_152_081);
            lemma_digit_step(value, 16_194_277);
            lemma_digit_step(value, 64_009);
            lemma_digit_step(value, 253);
        }
    }
    if number >= INT_MAX {
        bytes[4] = low_byte((rest / INT_MAX) as i128 + 1);
        rest = rest % INT_MAX;
    }
    if number >= THREE_MAX as i64 {
        bytes[3] = (rest / THREE_MAX as i64) as u8 + 1;
        rest = rest % THREE_MAX as i64;
    }
    if number >= SHORT_MAX as i64 {
        bytes[2] = (rest / SHORT_MAX as i64) as u8 + 1;
        rest = rest % SHORT_MAX as i64;
    }
    if number >= CHAR_MAX as i64 {
        bytes[1] = (rest / CHAR_MAX as i64) as u8 + 1;
        rest = rest % CHAR_MAX as i64;
    }
    if number >= 0 {
        bytes[0] = rest as u8 + 1;
    } else {
        bytes[0] = low_byte(rest as i128 + 1);
    }
    assert(bytes@ =~= encoded_number_64(value));
    Ok(bytes)
}

/// The digit that the byte `byte` stands for: `0` and the sentinel both read
/// as zero, any other byte as itself minus one.
pub open spec fn digit_value(byte: u8) -> int {
    if byte == 0 || byte == SENTINEL {
        0
    } else {
        byte - 1
    }
}

/// The digit at position `i` of `bytes`; a position past the end reads as
/// zero.
pub open spec fn digit_at(bytes: Seq<u8>, i: int) -> int {
    if 0 <= i < bytes.len() {
        digit_value(bytes[i])
    } else {
        0
    }
}

/// The sum of the first four digits of `bytes`, each times the weight of its
/// position.
pub open spec fn digits_value(bytes: Seq<u8>) -> int {
    digit_at(bytes, 0) + digit_at(bytes, 1) * 253 + digit_at(bytes, 2) * 64_009 + digit_at(
        bytes,
        3,
    ) * 16_194_277
}

/// The sum of the first five digits of `bytes`, each times the weight of its
/// position.
pub open spec fn digits_value_64(bytes: Seq<u8>) -> int {
    digits_value(bytes) + digit_at(bytes, 4) * 4_097_152_081
}

/// `value` reduced modulo 2^32 into the range of `i32`.
pub open spec fn wrapped_i32(value: int) -> int {
    let low = value % 0x1_0000_0000;
    if low > i32::MAX {
        low - 0x1_0000_0000
    } else {
        low
    }
}

/// The digit of `bytes` at position `i`.
fn read_digit(bytes: &[u8], i: usize) -> (digit: i64)
    ensures
        digit == digit_at(bytes@, i as int),
        0 <= digit <= 254,
{
    if i < bytes.len() && bytes[i] != 0 && bytes[i] != SENTINEL {
        (bytes[i] - 1) as i64
    } else {
        0
    }
}

/// Reads a number from the first four bytes of `bytes`.
///
/// Missing positions read as zero. The sum of the weighted digits wraps
/// modulo 2^32 where it does not fit an `i32`; no input is refused.
pub fn decode_number(bytes: &[u8]) -> (number: i32)
    ensures
        number == wrapped_i32(digits_value(bytes@)),
{
    let d0: i64 = read_digit(bytes, 0);
    let d1: i64 = read_digit(bytes, 1);
    let d2: i64 = read_digit(bytes, 2);
    let d3: i64 = read_digit(bytes, 3);
    assert(THREE_MAX as i64 == 16_194_277 && SHORT_MAX as i64 == 64_009 && CHAR_MAX as i64 == 253);
    let sum: i64 = d3 * (THREE_MAX as i64) + d2 * (SHORT_MAX as i64) + d1 * (CHAR_MAX as i64) + d0;
    if sum > i32::MAX as i64 {
        (sum - 0x1_0000_0000) as i32
    } else {
        sum as i32
    }
}

/// Reads a number from the first five bytes of `bytes`.
///
/// Missing positions read as zero. The sum of the weighted digits always
/// fits an `i64`, so nothing wraps; no input is refused.
pub fn decode_number_64(bytes: &[u8]) -> (number: i64)
    ensures
        number == digits_value_64(bytes@),
{
    let d0: i64 = read_digit(bytes, 0);
    let d1: i64 = read_digit(bytes, 1);
    let d2: i64 = read_digit(bytes, 2);
    let d3: i64 = read_digit(bytes, 3);
    let d4: i64 = read_digit(bytes, 4);
    assert(THREE_MAX as i64 == 16_194_277 && SHORT_MAX as i64 == 64_009 && CHAR_MAX as i64 == 253);
    d4 * INT_MAX + d3 * (THREE_MAX as i64) + d2 * (SHORT_MAX as i64) + d1 * (CHAR_MAX as i64) + d0
}

/// The digit that [`digit_byte`] writes at the position of weight `unit`
/// reads back as the base-253 digit of `value` at that position.
proof fn lemma_digit_byte_reads_back(value: int, unit: int)
    requires
        0 <= value,
        0 < unit,
    ensures
        digit_value(digit_byte(value, unit)) == (value / unit) % 253,
        value % (unit * 253) == unit * ((value / unit) % 253) + value % unit,
{
    lemma_digit_step(value, unit);
    lemma_breakdown(value, unit, 253);
}

/// Decoding inverts encoding on four bytes: for every `value` that
/// [`encode_number`] accepts, the weighted digits of its encoding sum to
/// `value`. For every non-negative input of [`encode_number`], which is its
/// own normalized value, [`decode_number`] therefore returns that input on
/// the bytes that [`encode_number`] wrote for it.
pub proof fn lemma_decode_number_inverts_encode(value: int)
    requires
        0 <= value < INT_MAX,
    ensures
        digits_value(encoded_number(value)) == value,
        value <= i32::MAX ==> wrapped_i32(digits_value(encoded_number(normalized(value)))) == value,
{
    lemma_digit_byte_reads_back(value, 253);
    lemma_digit_byte_reads_back(value, 64_009);
    lemma_digit_byte_reads_back(value, 16_194_277);
    lemma_small_mod(value as nat, INT_MAX as nat);
    lemma_fundamental_div_mod(value, 253);
    lemma_mod_bound(value, 253);
}

/// Decoding inverts encoding on five bytes: for every non-negative `value`
/// that five base-253 digits can hold, [`decode_number_64`] returns `value`
/// on what [`encode_number_64`] wrote for it.
pub proof fn lemma_decode_number_64_inverts_encode(value: int)
    requires
        0 <= value < five_byte_limit(),
    ensures
        digits_value_64(encoded_number_64(value)) == value,
{
    lemma_digit_byte_reads_back(value, 253);
    lemma_digit_byte_reads_back(value, 64_009);
    lemma_digit_byte_reads_back(value, 16_194_277);
    lemma_fundamental_div_mod(value, 253);
    lemma_mod_bound(value, 253);
    lemma_fundamental_div_mod(value, 4_097_152_081);
}

} // verus!
