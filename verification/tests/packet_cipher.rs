use eolib::encrypt::{
    decrypt_packet, deinterleave, encrypt_packet, flip_msb, interleave, swap_multiples,
    valid_for_encryption,
};

const PLAIN: [u8; 16] = [
    21, 18, 145, 72, 101, 108, 108, 111, 44, 32, 119, 111, 114, 108, 100, 33,
];

const WIRE: [u8; 16] = [
    149, 161, 146, 228, 17, 242, 200, 236, 229, 239, 236, 247, 236, 160, 239, 172,
];

#[test]
fn encrypt_packet_canonical_vector() {
    let mut buf = PLAIN;
    encrypt_packet(&mut buf, 6);
    assert_eq!(buf, WIRE);
}

#[test]
fn decrypt_packet_canonical_vector() {
    let mut buf = WIRE;
    decrypt_packet(&mut buf, 6, 0);
    assert_eq!(buf, PLAIN);
}

#[test]
fn decrypt_packet_ignores_magic() {
    for magic in [i32::MIN, -1, 0, 1, 253, i32::MAX] {
        let mut buf = WIRE;
        decrypt_packet(&mut buf, 6, magic);
        assert_eq!(buf, PLAIN);
    }
}

#[test]
fn valid_for_encryption_cases() {
    assert!(!valid_for_encryption(&[]));
    assert!(!valid_for_encryption(&[1]));
    assert!(!valid_for_encryption(&[1, 2]));
    assert!(valid_for_encryption(&[1, 2, 3]));
    assert!(!valid_for_encryption(&[0xFF, 0xFF, 3]));
    assert!(valid_for_encryption(&[0xFF, 0xFE, 3]));
    assert!(valid_for_encryption(&[0xFE, 0xFF, 3]));
}

#[test]
fn short_packets_are_unchanged() {
    for packet in [vec![], vec![12u8], vec![12u8, 6]] {
        let mut buf = packet.clone();
        encrypt_packet(&mut buf, 6);
        assert_eq!(buf, packet);
        decrypt_packet(&mut buf, 6, 0);
        assert_eq!(buf, packet);
    }
}

#[test]
fn marked_packets_are_unchanged() {
    let packet = vec![0xFFu8, 0xFF, 12, 6, 18, 1, 2, 3];
    let mut buf = packet.clone();
    encrypt_packet(&mut buf, 6);
    assert_eq!(buf, packet);
    decrypt_packet(&mut buf, 6, 0);
    assert_eq!(buf, packet);
}

#[test]
fn swap_multiples_reverses_each_run() {
    let mut buf = [1u8, 6, 12, 18, 5, 24, 30, 7, 36];
    swap_multiples(&mut buf, 6);
    assert_eq!(buf, [1, 18, 12, 6, 5, 30, 24, 7, 36]);
}

#[test]
fn swap_multiples_counts_zero_as_multiple() {
    let mut buf = [0u8, 7, 14, 3];
    swap_multiples(&mut buf, 7);
    assert_eq!(buf, [14, 7, 0, 3]);
}

#[test]
fn swap_multiples_with_key_zero_changes_nothing() {
    let mut buf = [0u8, 0, 6, 12, 1];
    swap_multiples(&mut buf, 0);
    assert_eq!(buf, [0, 0, 6, 12, 1]);
}

#[test]
fn swap_multiples_with_negative_key_swaps_as_positive() {
    let mut a = [1u8, 6, 12, 18, 5];
    let mut b = a;
    swap_multiples(&mut a, 6);
    swap_multiples(&mut b, -6);
    assert_eq!(a, b);
    let mut c = [3u8, 4, 5];
    swap_multiples(&mut c, i32::MIN);
    assert_eq!(c, [3, 4, 5]);
}

#[test]
fn swap_multiples_twice_restores() {
    let plain = [6u8, 12, 1, 18, 24, 30, 36, 2, 42];
    let mut buf = plain;
    swap_multiples(&mut buf, 6);
    swap_multiples(&mut buf, 6);
    assert_eq!(buf, plain);
}

#[test]
fn flip_msb_flips_every_top_bit() {
    let mut buf = [0u8, 1, 0x7F, 0x80, 0xFF];
    flip_msb(&mut buf);
    assert_eq!(buf, [0x80, 0x81, 0xFF, 0x00, 0x7F]);
}

#[test]
fn interleave_even_and_odd_length() {
    let mut even = *b"abcdef";
    interleave(&mut even);
    assert_eq!(&even, b"afbecd");
    let mut odd = *b"abcde";
    interleave(&mut odd);
    assert_eq!(&odd, b"aebdc");
}

#[test]
fn deinterleave_even_and_odd_length() {
    let mut even = *b"afbecd";
    deinterleave(&mut even);
    assert_eq!(&even, b"abcdef");
    let mut odd = *b"abcde";
    deinterleave(&mut odd);
    assert_eq!(&odd, b"acedb");
}

#[test]
fn decrypt_packet_inverts_encrypt_packet_for_keys_6_to_12() {
    let packets: [&[u8]; 5] = [
        &PLAIN,
        &[1, 2, 3],
        &[6, 12, 18, 24, 7, 14, 21, 8, 16, 9, 27, 10, 20, 11, 22, 33, 36],
        &[0, 0, 0, 0, 0],
        &[0xFF, 0, 0xFF, 0xFF, 0x80, 0x7F, 0x7E],
    ];
    for key in 6..=12 {
        for packet in packets {
            let mut buf = packet.to_vec();
            encrypt_packet(&mut buf, key);
            assert_ne!(buf, packet);
            decrypt_packet(&mut buf, key, 0);
            assert_eq!(buf, packet);
        }
    }
}

#[test]
fn encrypted_packet_that_gains_the_marker_is_not_decrypted() {
    let packet = [0x7Fu8, 1, 0x7F];
    let mut buf = packet;
    encrypt_packet(&mut buf, 6);
    assert_eq!(buf, [0xFF, 0xFF, 0x81]);
    decrypt_packet(&mut buf, 6, 0);
    assert_eq!(buf, [0xFF, 0xFF, 0x81]);
}
