//! Key derivation (PBKDF2-HMAC-SHA256) and the AES-256-CTR stream cipher
//! with a 32-bit big-endian block counter.

use aes::Aes256;
use ctr::cipher::generic_array::GenericArray;
use ctr::cipher::KeyIvInit;
use ctr::cipher::StreamCipher;
use ctr::cipher::StreamCipherSeek;
use ctr::Ctr32BE;
use pbkdf2::pbkdf2_hmac;
use sha2::Sha256;
use vstd::prelude::*;

verus! {

pub const KEY_LEN: usize = 32;

pub const NONCE_LEN: usize = 16;

pub const SALT_LEN: usize = 16;

pub const PBKDF2_ITERATIONS: u32 = 100_000;

pub const HEAD_SIZE: usize = 64 * 1024;

pub const TAIL_SIZE: usize = 64 * 1024;

pub const SMALL_FILE_THRESHOLD: usize = 128 * 1024;

/// Number of keystream bytes a cipher instance can produce: the 32-bit
/// block counter allows `u32::MAX` blocks of 16 bytes past any position.
pub const KEYSTREAM_LIMIT: u64 = 16 * 4294967295;

/// Byte number `pos` of the AES-256 keystream in CTR mode with a 32-bit
/// big-endian counter, for the given key and initial counter block.
pub uninterp spec fn aes256_ctr32be_keystream(key: Seq<u8>, nonce: Seq<u8>, pos: int) -> u8;

/// The bytes PBKDF2 with HMAC-SHA256 derives from a password and a salt,
/// with the given round count and output length.
pub uninterp spec fn pbkdf2_hmac_sha256(
    password: Seq<u8>,
    salt: Seq<u8>,
    rounds: u32,
    len: nat,
) -> Seq<u8>;

/// `data` XORed with the keystream, starting at keystream position `offset`.
pub open spec fn ctr_xor(key: Seq<u8>, nonce: Seq<u8>, offset: int, data: Seq<u8>) -> Seq<u8> {
    Seq::new(data.len(), |i: int| data[i] ^ aes256_ctr32be_keystream(key, nonce, offset + i))
}

/// The key `derive_key` returns for a password and a salt.
pub open spec fn spec_derive_key(password: Seq<u8>, salt: Seq<u8>) -> Seq<u8> {
    pbkdf2_hmac_sha256(password, salt, PBKDF2_ITERATIONS, KEY_LEN as nat)
}

/// Calls `pbkdf2::pbkdf2_hmac::<Sha256>`, which fills `out` with the PBKDF2
/// output for the password, salt and round count; it accepts every input
/// (HMAC takes keys of any length). The contract names that output.
#[verifier::external_body]
fn pbkdf2_sha256_fill(password: &[u8], salt: &[u8], rounds: u32, out: &mut [u8; 32])
    ensures
        final(out)@ == pbkdf2_hmac_sha256(password@, salt@, rounds, old(out)@.len()),
{
    pbkdf2_hmac::<Sha256>(password, salt, rounds, out);
}

/// Creates a `ctr::Ctr32BE<aes::Aes256>` cipher and calls `apply_keystream`
/// on `data`, which XORs every byte with the keystream from position 0.
/// The cipher panics when the data needs more blocks than the 32-bit
/// counter has left, which `requires` rules out.
#[verifier::external_body]
fn ctr32be_xor(key: &[u8; 32], nonce: &[u8; 16], data: &mut [u8])
    requires
        old(data)@.len() <= KEYSTREAM_LIMIT,
    ensures
        final(data)@.len() == old(data)@.len(),
        forall|i: int|
            0 <= i < old(data)@.len() ==> #[trigger] final(data)@[i] == old(data)@[i]
                ^ aes256_ctr32be_keystream(key@, nonce@, i),
{
    let mut cipher = Ctr32BE::<Aes256>::new(key.into(), GenericArray::from_slice(nonce));
    cipher.apply_keystream(data);
}

/// Creates a `ctr::Ctr32BE<aes::Aes256>` cipher, calls `seek(offset)` and
/// then `apply_keystream` on `data`, which XORs every byte with the
/// keystream from position `offset`. Seeking past the 32-bit block counter,
/// or running out of counter blocks, panics; `requires` rules both out.
#[verifier::external_body]
fn ctr32be_xor_at(key: &[u8; 32], nonce: &[u8; 16], offset: u64, data: &mut [u8])
    requires
        offset + old(data)@.len() <= KEYSTREAM_LIMIT,
    ensures
        final(data)@.len() == old(data)@.len(),
        forall|i: int|
            0 <= i < old(data)@.len() ==> #[trigger] final(data)@[i] == old(data)@[i]
                ^ aes256_ctr32be_keystream(key@, nonce@, offset + i),
{
    let mut cipher = Ctr32BE::<Aes256>::new(key.into(), GenericArray::from_slice(nonce));
    cipher.seek(offset);
    cipher.apply_keystream(data);
}

/// Derives the 256-bit content key from a password and a salt.
pub fn derive_key(password: &[u8], salt: &[u8; SALT_LEN]) -> (key: [u8; KEY_LEN])
    ensures
        key@ == spec_derive_key(password@, salt@),
        key@ == pbkdf2_hmac_sha256(password@, salt@, 100_000, 32),
{
    let mut key = [0u8; 32];
    pbkdf2_sha256_fill(password, salt, PBKDF2_ITERATIONS, &mut key);
    key
}

/// Encrypts or decrypts `data` in place with the keystream from its start.
pub fn apply_ctr(key: &[u8; KEY_LEN], nonce: &[u8; NONCE_LEN], data: &mut [u8])
    requires
        old(data)@.len() <= KEYSTREAM_LIMIT,
    ensures
        final(data)@ == ctr_xor(key@, nonce@, 0, old(data)@),
{
    ctr32be_xor(key, nonce, data);
    assert(data@ =~= ctr_xor(key@, nonce@, 0, old(data)@));
}

/// Encrypts or decrypts `data` in place with the keystream from position
/// `offset`, so a piece of a buffer can be processed on its own.
pub fn apply_ctr_from(key: &[u8; KEY_LEN], nonce: &[u8; NONCE_LEN], offset: u64, data: &mut [u8])
    requires
        offset + old(data)@.len() <= KEYSTREAM_LIMIT,
    ensures
        final(data)@ == ctr_xor(key@, nonce@, offset as int, old(data)@),
{
    ctr32be_xor_at(key, nonce, offset, data);
    assert(data@ =~= ctr_xor(key@, nonce@, offset as int, old(data)@));
}

/// The content key is PBKDF2-HMAC-SHA256 with the user's password as the
/// PBKDF2 password, the salt as the PBKDF2 salt, 100,000 rounds and a
/// 32-byte output.
pub proof fn lemma_derive_key_is_pbkdf2(password: Seq<u8>, salt: Seq<u8>)
    ensures
        spec_derive_key(password, salt) == pbkdf2_hmac_sha256(password, salt, 100_000, 32),
        PBKDF2_ITERATIONS == 100_000,
        KEY_LEN == 32,
{
}

/// Applying the keystream twice at the same position gives the data back:
/// encryption and decryption are the same operation.
pub proof fn lemma_ctr_xor_involution(key: Seq<u8>, nonce: Seq<u8>, offset: int, data: Seq<u8>)
    ensures
        ctr_xor(key, nonce, offset, data).len() == data.len(),
        ctr_xor(key, nonce, offset, ctr_xor(key, nonce, offset, data)) == data,
{
    let once = ctr_xor(key, nonce, offset, data);
    let twice = ctr_xor(key, nonce, offset, once);
    assert forall|i: int| 0 <= i < data.len() implies twice[i] == data[i] by {
        let a = data[i];
        let k = aes256_ctr32be_keystream(key, nonce, offset + i);
        assert((a ^ k) ^ k == a) by (bit_vector);
    }
    assert(twice =~= data);
}

/// The keystream applied to a piece of a buffer, from the piece's own
/// position, gives the same bytes as applying it to the whole buffer.
pub proof fn lemma_ctr_xor_piece(key: Seq<u8>, nonce: Seq<u8>, offset: int, data: Seq<u8>, start: int, end: int)
    requires
        0 <= start <= end <= data.len(),
    ensures
        ctr_xor(key, nonce, offset, data).subrange(start, end)
            == ctr_xor(key, nonce, offset + start, data.subrange(start, end)),
{
    assert(ctr_xor(key, nonce, offset, data).subrange(start, end)
        =~= ctr_xor(key, nonce, offset + start, data.subrange(start, end)));
}

} // verus!
