//! The packet cipher, towards the wire.
use crate::encrypt::stages::{
    flip_msb, flipped, interleave, interleaved, swap_multiples, swapped,
};
use crate::encrypt::{cipher_applies, valid_for_encryption};
use vstd::prelude::*;

verus! {

/// What [`encrypt_packet`] makes of `packet` under the swap key `key`: a
/// packet that the cipher does not apply to is kept; any other has its runs
/// of multiples of `key` reversed, then every top bit flipped, then its
/// bytes woven.
pub open spec fn encrypted_packet(packet: Seq<u8>, key: int) -> Seq<u8> {
    if cipher_applies(packet) {
        interleaved(flipped(swapped(packet, key)))
    } else {
        packet
    }
}

/// Encrypts a packet in place. The call never fails: a packet of at most two
/// bytes, or one that begins with `0xFF 0xFF`, is left unchanged.
pub fn encrypt_packet(buf: &mut [u8], key: i32)
    ensures
        final(buf)@ == encrypted_packet(old(buf)@, key as int),
        !cipher_applies(old(buf)@) ==> final(buf)@ == old(buf)@,
{
    if !valid_for_encryption(buf) {
        return ;
    }
    swap_multiples(buf, key);
    flip_msb(buf);
    interleave(buf);
}

} // verus!
