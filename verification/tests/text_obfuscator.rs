use eolib::data::{decode_string, encode_string};

#[test]
fn encode_string_moves_even_down_two_odd_down_one() {
    let mut buf = b"Void".to_vec();
    encode_string(&mut buf);
    assert_eq!(buf, [0x54, 0x6E, 0x67, 0x63]);
}

#[test]
fn decode_string_moves_even_up_two_odd_up_one() {
    let mut buf = [0x54, 0x6E, 0x67, 0x63];
    decode_string(&mut buf);
    assert_eq!(&buf, b"Void");
    let mut other = [0x69, 0x36, 0x5E, 0x49];
    decode_string(&mut other);
    assert_eq!(other, [0x6B, 0x37, 0x60, 0x4A]);
}

#[test]
fn string_obfuscator_wraps_at_the_ends_of_the_byte_range() {
    let mut low = [0u8, 0, 1, 1];
    encode_string(&mut low);
    assert_eq!(low, [254, 255, 255, 0]);
    let mut high = [255u8, 255, 254, 254];
    decode_string(&mut high);
    assert_eq!(high, [1, 0, 0, 255]);
}

#[test]
fn string_obfuscator_accepts_empty_buffer() {
    let mut buf: [u8; 0] = [];
    encode_string(&mut buf);
    decode_string(&mut buf);
    assert_eq!(buf.len(), 0);
}

#[test]
fn decode_string_inverts_encode_string() {
    let plain: Vec<u8> = (0..=255u8).chain([0, 255, 1, 254, 7]).collect();
    let mut buf = plain.clone();
    encode_string(&mut buf);
    assert_ne!(buf, plain);
    decode_string(&mut buf);
    assert_eq!(buf, plain);
}

#[test]
fn encode_string_inverts_decode_string() {
    let plain: Vec<u8> = (0..=255u8).rev().chain([3, 2, 1]).collect();
    let mut buf = plain.clone();
    decode_string(&mut buf);
    assert_ne!(buf, plain);
    encode_string(&mut buf);
    assert_eq!(buf, plain);
}
