//! The packet cipher, from the wire.
use crate::encrypt::encrypt_packet::encrypted_packet;
use crate::encrypt::stages::{
    deinterleave, deinterleaved, flip_msb, flipped, lemma_deinterleave_inverts_interleave,
    lemma_flip_is_involution, lemma_interleave_inverts_deinterleave, lemma_swap_is_involution,
    swap_multiples, swapped,
};
use crate::encrypt::{cipher_applies, valid_for_encryption};
use vstd::prelude::*;

verus! {

/// What [`decrypt_packet`] makes of `packet` under the swap key `key`: a
/// packet that the cipher does not apply to is kept; any other has its bytes
/// unwoven, then every top bit flipped, then its runs of multiples of `key`
/// reversed.
pub open spec fn decrypted_packet(packet: Seq<u8>, key: int) -> Seq<u8> {
    if cipher_applies(packet) {
        swapped(flipped(deinterleaved(packet)), key)
    } else {
        packet
    }
}

/// Decrypts a packet in place, undoing the stages of the cipher in reverse
/// order. The call never fails: a packet of at most two bytes, or one that
/// begins with `0xFF 0xFF`, is left unchanged. The result does not depend on
/// `magic`.
#[allow(unused_variables)]
pub fn decrypt_packet(buf: &mut [u8], key: i32, magic: i32)
    ensures
        final(buf)@ == decrypted_packet(old(buf)@, key as int),
        !cipher_applies(old(buf)@) ==> final(buf)@ == old(buf)@,
{
    if !valid_for_encryption(buf) {
        return ;
    }
    deinterleave(buf);
    flip_msb(buf);
    swap_multiples(buf, key);
}

/// Decrypting an encrypted packet with the same key gives the packet back,
/// for every key, provided the cipher applies to the packet and to its
/// encrypted form.
///
/// The second condition is needed: a packet whose first and last bytes
/// after the swap are both `0x7F` encrypts to one that begins with the
/// marker `0xFF 0xFF`, which decryption leaves as it is.
pub proof fn lemma_decrypt_inverts_encrypt(packet: Seq<u8>, key: int)
    requires
        cipher_applies(packet),
        cipher_applies(encrypted_packet(packet, key)),
    ensures
        decrypted_packet(encrypted_packet(packet, key), key) == packet,
{
    let swapped_once = swapped(packet, key);
    let flipped_once = flipped(swapped_once);
    lemma_deinterleave_inverts_interleave(flipped_once);
    lemma_flip_is_involution(swapped_once);
    lemma_swap_is_involution(packet, key);
}

/// Where the encrypted form of a packet begins with the marker, decryption
/// does not give the packet back: the condition of
/// [`lemma_decrypt_inverts_encrypt`] on the encrypted form cannot be
/// dropped.
pub proof fn lemma_marker_stops_decrypt(packet: Seq<u8>, key: int)
    requires
        cipher_applies(packet),
        !cipher_applies(encrypted_packet(packet, key)),
    ensures
        decrypted_packet(encrypted_packet(packet, key), key) == encrypted_packet(packet, key),
        decrypted_packet(encrypted_packet(packet, key), key) != packet,
{
}

/// Encrypting a decrypted packet with the same key gives the packet back,
/// for every key, provided the cipher applies to the packet and to its
/// decrypted form.
pub proof fn lemma_encrypt_inverts_decrypt(packet: Seq<u8>, key: int)
    requires
        cipher_applies(packet),
        cipher_applies(decrypted_packet(packet, key)),
    ensures
        encrypted_packet(decrypted_packet(packet, key), key) == packet,
{
    let unwoven = deinterleaved(packet);
    let flipped_once = flipped(unwoven);
    lemma_swap_is_involution(flipped_once, key);
    lemma_flip_is_involution(unwoven);
    lemma_interleave_inverts_deinterleave(packet);
}

} // verus!
