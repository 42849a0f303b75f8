//! Reduction of an integer to a byte, modulo 256.
use vstd::prelude::*;

verus! {

/// The byte `value` wraps to: `value` modulo 256, which lies in `0..256`
/// also for a negative `value`.
pub open spec fn wrapped_byte(value: int) -> u8 {
    (value % 256) as u8
}

/// The low eight bits of `value` in two's complement.
pub fn low_byte(value: i128) -> (byte: u8)
    ensures
        byte == wrapped_byte(value as int),
{
    let low: i128 = value & 0xff;
    assert(low == value % 256) by (bit_vector)
        requires
            low == value & 0xff,
    ;
    low as u8
}

} // verus!
