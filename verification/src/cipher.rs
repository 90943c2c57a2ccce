//! The stream cipher: AES-128 in counter mode with a 32-bit little-endian counter.

use ctr::cipher::{KeyIvInit, StreamCipher, StreamCipherSeek};
use vstd::prelude::*;

use crate::shiftxor::zero_bytes;

verus! {

/// Size of the cipher key, and of the blocks that keys are recovered from.
pub const KEY_BYTES: usize = 16;

/// Number of bytes after which the cipher's counter would be used up.
pub const KEYSTREAM_BYTES: u64 = 0xf_ffff_fff0;

/// The keystream byte at the given position, for the given key and initialization vector.
pub uninterp spec fn keystream_byte(key: Seq<u8>, iv: Seq<u8>, position: nat) -> u8;

/// `ctr::Ctr32LE<aes::Aes128>`: set up with `new_from_slices`, moved to a position of the
/// keystream with `seek`, and applied with `apply_keystream_b2b`, which XORs each byte of the data
/// with the keystream byte at its position. Which byte the keystream has at a position depends on
/// the key, the initialization vector and the position alone; what that byte is is AES and is left
/// to its name.
#[verifier::external_body]
fn apply_keystream(
    key: &[u8; KEY_BYTES],
    iv: &[u8; KEY_BYTES],
    position: u64,
    data: &[u8],
) -> (res: Vec<u8>)
    requires
        position + data@.len() <= KEYSTREAM_BYTES,
    ensures
        res@.len() == data@.len(),
        forall|i: int|
            0 <= i < data@.len() ==> res@[i] == data@[i] ^ keystream_byte(
                key@,
                iv@,
                (position + i) as nat,
            ),
{
    let mut cipher = ctr::Ctr32LE::<aes::Aes128>::new_from_slices(key, iv).unwrap();
    cipher.seek(position);
    let mut res = vec![0u8; data.len()];
    cipher.apply_keystream_b2b(data, &mut res).unwrap();
    res
}

/// The data, starting at the given position of the stream, XORed with the keystream for an
/// all-zero initialization vector.
pub open spec fn keystream_xor(key: Seq<u8>, position: nat, data: Seq<u8>) -> Seq<u8> {
    Seq::new(
        data.len(),
        |i: int| data[i] ^ keystream_byte(key, zero_bytes(KEY_BYTES as nat), position + i as nat),
    )
}

/// Encrypts (or decrypts) data that starts at the given position of the stream.
///
/// The initialization vector is all zeros. That is safe because each key is random and used for a
/// single stream, so that no pair of key and vector ever comes up again.
pub fn encrypt_at(key: &[u8; KEY_BYTES], position: u64, data: &[u8]) -> (res: Vec<u8>)
    requires
        position + data@.len() <= KEYSTREAM_BYTES,
    ensures
        res@ == keystream_xor(key@, position as nat, data@),
        res@.len() == data@.len(),
        forall|i: int|
            0 <= i < data@.len() ==> #[trigger] res@[i] == data@[i] ^ keystream_byte(
                key@,
                Seq::new(16, |j: int| 0u8),
                (position + i) as nat,
            ),
{
    let iv: [u8; KEY_BYTES] = [0u8; KEY_BYTES];
    assert(iv@ =~= zero_bytes(KEY_BYTES as nat));
    let res: Vec<u8> = apply_keystream(key, &iv, position, data);
    assert(res@ =~= keystream_xor(key@, position as nat, data@));
    assert(iv@ =~= Seq::new(16, |j: int| 0u8));
    res
}

/// Every byte of the stream, wherever it lies, is XORed with the keystream byte at its position.
pub proof fn law_every_byte_encrypted(key: Seq<u8>, position: nat, data: Seq<u8>)
    ensures
        keystream_xor(key, position, data).len() == data.len(),
        forall|i: int|
            0 <= i < data.len() ==> #[trigger] keystream_xor(key, position, data)[i] == data[i]
                ^ keystream_byte(key, Seq::new(16, |j: int| 0u8), (position + i) as nat),
{
    assert(zero_bytes(KEY_BYTES as nat) =~= Seq::new(16, |j: int| 0u8));
}

/// Encryption and decryption are the same operation: applied twice, it gives back the data.
pub proof fn law_decryption(key: Seq<u8>, position: nat, data: Seq<u8>)
    ensures
        keystream_xor(key, position, keystream_xor(key, position, data)) == data,
{
    assert forall|i: int| 0 <= i < data.len() implies keystream_xor(
        key,
        position,
        keystream_xor(key, position, data),
    )[i] == data[i] by {
        let x = data[i];
        let k = keystream_byte(key, zero_bytes(KEY_BYTES as nat), position + i as nat);
        assert((x ^ k) ^ k == x) by (bit_vector);
    }
    assert(keystream_xor(key, position, keystream_xor(key, position, data)) =~= data);
}

/// A stream may be encrypted piece by piece.
pub proof fn law_piecewise_encryption(key: Seq<u8>, position: nat, first: Seq<u8>, second: Seq<u8>)
    ensures
        keystream_xor(key, position, first + second) == keystream_xor(key, position, first)
            + keystream_xor(key, position + first.len(), second),
{
    assert(keystream_xor(key, position, first + second) =~= keystream_xor(key, position, first)
        + keystream_xor(key, position + first.len(), second));
}

} // verus!
