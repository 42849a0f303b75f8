//! The obfuscation schemes of the protocol and the server verification hash.
use vstd::prelude::*;

pub mod decrypt_packet;
pub mod decrypt_string;
pub mod encrypt_packet;
pub mod encrypt_string;
pub mod lossy;
pub mod server_verification_hash;
pub mod stages;

pub use decrypt_packet::decrypt_packet;
pub use decrypt_string::{decrypt_string, decrypt_string_bytes};
pub use encrypt_packet::encrypt_packet;
pub use encrypt_string::{encrypt_string, encrypt_string_bytes};
pub use server_verification_hash::{checked_server_verification_hash, server_verification_hash};
pub use stages::{deinterleave, flip_msb, interleave, swap_multiples};

verus! {

/// The key of the legacy string cipher for the second step of a login.
pub const LOGIN_DO2_ENCRYPTION_KEY: i32 = 120;

/// The key of the legacy string cipher for the deletion of an account.
pub const ACCOUNT_DELETE_ENCRYPTION_KEY: i32 = 111;

/// The key of the legacy string cipher for the second step of an account
/// request.
pub const ACCOUNT_DO2_ENCRYPTION_KEY: i32 = 126;

/// The key of the legacy string cipher for a login request.
pub const LOGIN_REQUEST_ENCRYPTION_KEY: i32 = 132;

/// The key of the legacy string cipher for the private part of an account.
pub const ACCOUNT_PRIVATE_ENCRYPTION_KEY: i32 = 127;

/// Whether the packet cipher applies to `packet`: it has more than two
/// bytes and does not begin with the marker `0xFF 0xFF`, which announces a
/// packet that travels as it is.
pub open spec fn cipher_applies(packet: Seq<u8>) -> bool {
    packet.len() > 2 && !(packet[0] == 0xff && packet[1] == 0xff)
}

/// Whether the packet cipher applies to `buf`.
pub fn valid_for_encryption(buf: &[u8]) -> (valid: bool)
    ensures
        valid == cipher_applies(buf@),
{
    buf.len() > 2 && !(buf[0] == 0xff && buf[1] == 0xff)
}

} // verus!
