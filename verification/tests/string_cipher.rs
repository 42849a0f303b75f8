use eolib::encrypt::{
    decrypt_string, decrypt_string_bytes, encrypt_string, encrypt_string_bytes,
    ACCOUNT_DELETE_ENCRYPTION_KEY, ACCOUNT_DO2_ENCRYPTION_KEY, ACCOUNT_PRIVATE_ENCRYPTION_KEY,
    LOGIN_DO2_ENCRYPTION_KEY, LOGIN_REQUEST_ENCRYPTION_KEY,
};

#[test]
fn string_cipher_keys_of_the_protocol() {
    assert_eq!(LOGIN_DO2_ENCRYPTION_KEY, 120);
    assert_eq!(ACCOUNT_DELETE_ENCRYPTION_KEY, 111);
    assert_eq!(ACCOUNT_DO2_ENCRYPTION_KEY, 126);
    assert_eq!(LOGIN_REQUEST_ENCRYPTION_KEY, 132);
    assert_eq!(ACCOUNT_PRIVATE_ENCRYPTION_KEY, 127);
    assert_eq!(encrypt_string("hello", LOGIN_DO2_ENCRYPTION_KEY), "JIDNIUDEIH");
    assert_eq!(decrypt_string("JIDNIUDEIH", LOGIN_DO2_ENCRYPTION_KEY), "hello");
}

#[test]
fn encrypt_string_doubles_the_length_in_base_24_letters() {
    assert_eq!(encrypt_string("hello", 120), "JIDNIUDEIH");
    assert_eq!(encrypt_string("Hello, World!", 5), "DFEPFDFIFQDCCTFHGMGUGTGQEC");
    assert_eq!(encrypt_string("", 3), "");
}

#[test]
fn encrypt_string_with_negative_and_extreme_keys() {
    assert_eq!(encrypt_string("abc", -7), "DSDMDG");
    assert_eq!(encrypt_string("z", i32::MAX), "FB");
    assert_eq!(encrypt_string("z", i32::MIN), "FC");
}

#[test]
fn encrypt_string_works_on_utf8_bytes() {
    assert_eq!(encrypt_string("\u{e9}", 1), "IEHD");
    assert_eq!(encrypt_string_bytes(&[0xC3, 0xA9], 1), b"IEHD");
}

#[test]
fn decrypt_string_inverts_encrypt_string() {
    assert_eq!(decrypt_string("JIDNIUDEIH", 120), "hello");
    assert_eq!(decrypt_string("DFEPFDFIFQDCCTFHGMGUGTGQEC", 5), "Hello, World!");
    assert_eq!(decrypt_string("DSDMDG", -7), "abc");
    assert_eq!(decrypt_string("IEHD", 1), "\u{e9}");
    for key in [0, 1, 111, 120, 126, 127, 132, -1, i32::MAX, i32::MIN] {
        let text = "The quick brown fox; 0123456789";
        assert_eq!(decrypt_string(&encrypt_string(text, key), key), text);
    }
}

#[test]
fn decrypt_string_drops_a_byte_without_partner() {
    assert_eq!(decrypt_string_bytes(b"ABC", 1), [0x00]);
    assert_eq!(decrypt_string("ABC", 1), "\0");
    assert_eq!(decrypt_string("A", 1), "");
    assert_eq!(decrypt_string("", 1), "");
}

#[test]
fn decrypt_string_wraps_bytes_outside_the_letters() {
    assert_eq!(decrypt_string_bytes(b"zz", 0), [0x91]);
    assert_eq!(decrypt_string_bytes(b"  ", 0), [0xC7]);
    assert_eq!(decrypt_string_bytes(b"AA", 1), [0xFF]);
    assert_eq!(decrypt_string_bytes(b"IDDJ", 3), [192, 75]);
}

#[test]
fn decrypt_string_replaces_invalid_utf8() {
    assert_eq!(decrypt_string_bytes(b"IA", 0), [192]);
    assert_eq!(decrypt_string("IA", 0), "\u{fffd}");
    assert_eq!(decrypt_string("IDDJ", 3), "\u{fffd}K");
}

#[test]
fn decrypt_string_bytes_inverts_encrypt_string_bytes() {
    let text: Vec<u8> = (0..=255u8).collect();
    for key in [0, 5, 24, 255, 256, -3, i32::MAX, i32::MIN] {
        let encrypted = encrypt_string_bytes(&text, key);
        assert_eq!(encrypted.len(), 512);
        assert!(encrypted.iter().all(|b| (b'A'..=b'X').contains(b)));
        assert_eq!(decrypt_string_bytes(&encrypted, key), text);
    }
}
