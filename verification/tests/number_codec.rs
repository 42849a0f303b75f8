use eolib::data::{
    decode_number, decode_number_64, encode_number, encode_number_64, normalize, EoWriterError,
    CHAR_MAX, INT_MAX, SHORT_MAX, THREE_MAX,
};

#[test]
fn radix_constants_are_powers_of_253() {
    assert_eq!(CHAR_MAX, 253);
    assert_eq!(SHORT_MAX, CHAR_MAX * CHAR_MAX);
    assert_eq!(THREE_MAX, CHAR_MAX * CHAR_MAX * CHAR_MAX);
    assert_eq!(INT_MAX, 253i64 * 253 * 253 * 253);
}

#[test]
fn encode_number_below_char_max() {
    assert_eq!(encode_number(42), Ok([43, 254, 254, 254]));
}

#[test]
fn encode_number_below_short_max() {
    assert_eq!(encode_number(533), Ok([28, 3, 254, 254]));
}

#[test]
fn encode_number_below_three_max() {
    assert_eq!(encode_number(888888), Ok([100, 225, 14, 254]));
}

#[test]
fn encode_number_below_int_max() {
    assert_eq!(encode_number(18994242), Ok([15, 189, 44, 2]));
}

#[test]
fn encode_number_at_each_threshold() {
    assert_eq!(encode_number(0), Ok([1, 254, 254, 254]));
    assert_eq!(encode_number(252), Ok([253, 254, 254, 254]));
    assert_eq!(encode_number(253), Ok([1, 2, 254, 254]));
    assert_eq!(encode_number(64008), Ok([253, 253, 254, 254]));
    assert_eq!(encode_number(64009), Ok([1, 1, 2, 254]));
    assert_eq!(encode_number(16194276), Ok([253, 253, 253, 254]));
    assert_eq!(encode_number(16194277), Ok([1, 1, 1, 2]));
    assert_eq!(encode_number(i32::MAX), Ok([167, 181, 154, 133]));
}

#[test]
fn encode_number_never_writes_zero_or_255() {
    for n in [0, 1, 252, 253, 1000, 64009, 999999, 16194277, 123456789, i32::MAX, -1, -77] {
        let bytes = encode_number(n).unwrap();
        for b in bytes {
            assert!((1..=254).contains(&b));
        }
    }
}

#[test]
fn normalize_moves_negative_input_up_by_i32_max() {
    assert_eq!(normalize(0), 0);
    assert_eq!(normalize(42), 42);
    assert_eq!(normalize(i32::MAX), 2147483647);
    assert_eq!(normalize(-1), 2147483648);
    assert_eq!(normalize(-5), 2147483652);
    assert_eq!(normalize(i32::MIN), 4294967295);
}

#[test]
fn encode_number_remaps_negative_input() {
    assert_eq!(encode_number(-1), Ok([168, 181, 154, 133]));
    assert_eq!(encode_number(-5), Ok([172, 181, 154, 133]));
    assert_eq!(encode_number(-1949668433), Ok([253, 253, 253, 253]));
}

#[test]
fn encode_number_rejects_normalized_value_at_int_max() {
    assert_eq!(
        encode_number(-1949668434),
        Err(EoWriterError::InvalidValue(4097152081))
    );
    assert_eq!(
        encode_number(i32::MIN),
        Err(EoWriterError::InvalidValue(4294967295))
    );
}

#[test]
fn decode_number_of_encoded_42() {
    assert_eq!(decode_number(&[43, 254, 254, 254]), 42);
}

#[test]
fn decode_number_reads_missing_and_zero_bytes_as_sentinel() {
    assert_eq!(decode_number(&[]), 0);
    assert_eq!(decode_number(&[2]), 1);
    assert_eq!(decode_number(&[0, 0, 0, 0]), 0);
    assert_eq!(decode_number(&[43, 0, 254, 0]), 42);
    assert_eq!(decode_number(&[15, 189, 44, 2]), 18994242);
}

#[test]
fn decode_number_uses_first_four_bytes_only() {
    assert_eq!(decode_number(&[1, 2, 3, 4, 5, 6]), 48711102);
}

#[test]
fn decode_number_wraps_instead_of_failing() {
    assert_eq!(decode_number(&[255, 255, 255, 255]), -165298136);
    assert_eq!(decode_number(&[1, 1, 1, 134]), -2141128455);
}

#[test]
fn decode_number_inverts_encode_number() {
    for n in [0, 1, 42, 252, 253, 533, 64008, 64009, 888888, 16194276, 16194277, 18994242, i32::MAX]
    {
        let bytes = encode_number(n).unwrap();
        assert_eq!(decode_number(&bytes), n);
    }
}

#[test]
fn decode_number_of_remapped_negative_wraps() {
    let bytes = encode_number(-1).unwrap();
    assert_eq!(decode_number(&bytes), i32::MIN);
}

#[test]
fn encode_number_64_small_values() {
    assert_eq!(encode_number_64(0), Ok([1, 254, 254, 254, 254]));
    assert_eq!(encode_number_64(42), Ok([43, 254, 254, 254, 254]));
    assert_eq!(encode_number_64(18994242), Ok([15, 189, 44, 2, 254]));
}

#[test]
fn encode_number_64_fifth_digit() {
    assert_eq!(encode_number_64(4097152080), Ok([253, 253, 253, 253, 254]));
    assert_eq!(encode_number_64(4097152081), Ok([1, 1, 1, 1, 2]));
    assert_eq!(encode_number_64(1036579476492), Ok([253, 253, 253, 253, 253]));
    assert_eq!(encode_number_64(1040676628579), Ok([6, 1, 1, 1, 255]));
}

#[test]
fn encode_number_64_accepts_values_past_five_digits() {
    assert_eq!(encode_number_64(1036579476493), Ok([1, 1, 1, 1, 254]));
    assert_eq!(encode_number_64(1044773780655), Ok([1, 1, 1, 1, 0]));
    assert_eq!(encode_number_64(2073158952986), Ok([1, 1, 1, 1, 251]));
    assert_eq!(encode_number_64(i64::MAX), Ok([118, 33, 248, 140, 165]));
}

#[test]
fn encode_number_64_negative_input_wraps_low_byte() {
    assert_eq!(encode_number_64(-1), Ok([0, 254, 254, 254, 254]));
    assert_eq!(encode_number_64(-2), Ok([255, 254, 254, 254, 254]));
    assert_eq!(encode_number_64(-256), Ok([1, 254, 254, 254, 254]));
}

#[test]
fn decode_number_64_reads_five_digits() {
    assert_eq!(decode_number_64(&[]), 0);
    assert_eq!(decode_number_64(&[43, 254, 254, 254, 254]), 42);
    assert_eq!(decode_number_64(&[1, 1, 1, 1, 2]), 4097152081);
    assert_eq!(decode_number_64(&[1, 2, 3, 4, 5, 6]), 16437319426);
    assert_eq!(decode_number_64(&[255, 255, 255, 255, 255]), 1044806297734);
}

#[test]
fn decode_number_64_inverts_encode_number_64() {
    let values: [i64; 10] = [
        0,
        1,
        252,
        253,
        64009,
        16194277,
        4097152080,
        4097152081,
        999999999999,
        1036579476492,
    ];
    for n in values {
        let bytes = encode_number_64(n).unwrap();
        assert_eq!(decode_number_64(&bytes), n);
    }
}

#[test]
fn decode_number_64_does_not_invert_past_five_digits() {
    let bytes = encode_number_64(1036579476493).unwrap();
    assert_eq!(decode_number_64(&bytes), 0);
}
