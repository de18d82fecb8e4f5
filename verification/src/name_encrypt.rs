//! Deterministic encryption of file and directory names: the UTF-8 bytes of
//! a name are XORed with a keystream derived from the password alone and
//! written as lowercase hex; file names also get the `.dat` extension.

use crate::crypto::{
    apply_ctr, ctr_xor, derive_key, lemma_ctr_xor_involution, pbkdf2_hmac_sha256, spec_derive_key, KEYSTREAM_LIMIT,
    KEY_LEN, NONCE_LEN, SALT_LEN,
};
use crate::text::{
    has_suffix, hex_decode, hex_encode, lemma_hex_round_trip, spec_hex_decode, spec_hex_encode,
    str_strip_suffix, string_from_utf8,
};
use vstd::prelude::*;
use vstd::slice::slice_to_vec;
use vstd::utf8::*;

verus! {

/// Fixed salt for name keys: the bytes of `VAULT_NAME_KEY_!`.
pub const NAME_SALT: [u8; SALT_LEN] = [86, 65, 85, 76, 84, 95, 78, 65, 77, 69, 95, 75, 69, 89, 95, 33];

/// Fixed all-zero nonce, which makes name encryption deterministic.
pub const NAME_NONCE: [u8; NONCE_LEN] = [0, 0, 0, 0, 0, 0, 0, 0, 0, 0, 0, 0, 0, 0, 0, 0];

/// Extension of encrypted file names.
pub const FILE_EXT: &'static str = ".dat";

/// Longest encrypted name, in bytes, that is still accepted.
pub const NAME_LIMIT: usize = 240;

/// The bytes of `VAULT_NAME_KEY_!`.
pub open spec fn name_salt_bytes() -> Seq<u8> {
    seq![86u8, 65u8, 85u8, 76u8, 84u8, 95u8, 78u8, 65u8, 77u8, 69u8, 95u8, 75u8, 69u8, 89u8, 95u8, 33u8]
}

/// The key names are encrypted with.
pub open spec fn spec_name_key(password: Seq<u8>) -> Seq<u8> {
    spec_derive_key(password, NAME_SALT@)
}

/// Hex text of the encrypted UTF-8 bytes of `name`.
pub open spec fn spec_encrypt_dir_name(password: Seq<u8>, name: Seq<char>) -> Seq<char> {
    spec_hex_encode(ctr_xor(spec_name_key(password), NAME_NONCE@, 0, encode_utf8(name)))
}

/// The encrypted directory name followed by `.dat`.
pub open spec fn spec_encrypt_file_name(password: Seq<u8>, name: Seq<char>) -> Seq<char> {
    spec_encrypt_dir_name(password, name) + FILE_EXT@
}

/// The name whose encryption is the hex text `encrypted`, when that text
/// is hex and the decrypted bytes are UTF-8.
pub open spec fn spec_decrypt_dir_name(password: Seq<u8>, encrypted: Seq<char>) -> Option<Seq<char>> {
    match spec_hex_decode(encrypted) {
        Some(bytes) => {
            let plain = ctr_xor(spec_name_key(password), NAME_NONCE@, 0, bytes);
            if valid_utf8(plain) {
                Some(decode_utf8(plain))
            } else {
                None
            }
        },
        None => None,
    }
}

/// The name whose encryption is `encrypted`, which must end with `.dat`.
pub open spec fn spec_decrypt_file_name(password: Seq<u8>, encrypted: Seq<char>) -> Option<Seq<char>> {
    if has_suffix(encrypted, FILE_EXT@) {
        spec_decrypt_dir_name(password, encrypted.subrange(0, encrypted.len() - FILE_EXT@.len()))
    } else {
        None
    }
}

/// The hex text decodes to no more bytes than one keystream covers (the
/// cipher panics past that).
pub open spec fn hex_payload_fits(encrypted: Seq<char>) -> bool {
    spec_hex_decode(encrypted) matches Some(bytes) ==> bytes.len() <= KEYSTREAM_LIMIT
}

/// Derives the key for name encryption from the password and the fixed salt.
pub fn derive_name_key(password: &[u8]) -> (key: [u8; KEY_LEN])
    ensures
        key@ == spec_name_key(password@),
        key@ == pbkdf2_hmac_sha256(password@, name_salt_bytes(), 100_000, 32),
{
    derive_key(password, &NAME_SALT)
}

/// Encrypted bytes of `name`, as lowercase hex.
fn encrypt_name_hex(password: &[u8], name: &str) -> (s: String)
    requires
        encode_utf8(name@).len() <= KEYSTREAM_LIMIT,
    ensures
        s@ == spec_encrypt_dir_name(password@, name@),
{
    let key = derive_name_key(password);
    let mut bytes = slice_to_vec(name.as_bytes());
    apply_ctr(&key, &NAME_NONCE, bytes.as_mut_slice());
    hex_encode(bytes.as_slice())
}

/// Decrypts the name behind the hex text `encrypted`.
fn decrypt_name_hex(password: &[u8], encrypted: &str) -> (r: Option<String>)
    requires
        hex_payload_fits(encrypted@),
    ensures
        r is Some <==> spec_decrypt_dir_name(password@, encrypted@) is Some,
        r matches Some(s) ==> spec_decrypt_dir_name(password@, encrypted@) == Some(s@),
{
    let bytes = match hex_decode(encrypted) {
        Ok(b) => b,
        Err(_) => return None,
    };
    let key = derive_name_key(password);
    let mut bytes = bytes;
    apply_ctr(&key, &NAME_NONCE, bytes.as_mut_slice());
    match string_from_utf8(bytes) {
        Ok(s) => Some(s),
        Err(_) => None,
    }
}

/// Encrypts a file name: hex of the encrypted name, then `.dat`.
pub fn encrypt_file_name(password: &[u8], name: &str) -> (s: String)
    requires
        encode_utf8(name@).len() <= KEYSTREAM_LIMIT,
    ensures
        s@ == spec_encrypt_file_name(password@, name@),
{
    let hex = encrypt_name_hex(password, name);
    hex.concat(FILE_EXT)
}

/// Recovers a file name from its encrypted form; `None` when the name does
/// not end with `.dat`, is not hex, or does not decrypt to UTF-8.
pub fn decrypt_file_name(password: &[u8], encrypted: &str) -> (r: Option<String>)
    requires
        has_suffix(encrypted@, FILE_EXT@) ==> hex_payload_fits(
            encrypted@.subrange(0, encrypted@.len() - FILE_EXT@.len()),
        ),
    ensures
        r is Some <==> spec_decrypt_file_name(password@, encrypted@) is Some,
        r matches Some(s) ==> spec_decrypt_file_name(password@, encrypted@) == Some(s@),
{
    proof {
        reveal_strlit(".dat");
    }
    match str_strip_suffix(encrypted, FILE_EXT) {
        Some(without_ext) => decrypt_name_hex(password, without_ext),
        None => None,
    }
}

/// Encrypts a directory name: hex of the encrypted name, no extension.
pub fn encrypt_dir_name(password: &[u8], name: &str) -> (s: String)
    requires
        encode_utf8(name@).len() <= KEYSTREAM_LIMIT,
    ensures
        s@ == spec_encrypt_dir_name(password@, name@),
{
    encrypt_name_hex(password, name)
}

/// Recovers a directory name from its encrypted form; `None` when the name
/// is not hex or does not decrypt to UTF-8.
pub fn decrypt_dir_name(password: &[u8], encrypted: &str) -> (r: Option<String>)
    requires
        hex_payload_fits(encrypted@),
    ensures
        r is Some <==> spec_decrypt_dir_name(password@, encrypted@) is Some,
        r matches Some(s) ==> spec_decrypt_dir_name(password@, encrypted@) == Some(s@),
{
    decrypt_name_hex(password, encrypted)
}

/// The encrypted form of a name of `byte_len` UTF-8 bytes is longer than
/// the limit: two hex digits per byte, plus the extension for a file.
pub open spec fn spec_would_exceed_name_limit(byte_len: nat, is_file: bool) -> bool {
    2 * byte_len + (if is_file { FILE_EXT@.len() } else { 0 }) > NAME_LIMIT
}

/// Whether encrypting `name` would give a name longer than 240 bytes.
pub fn would_exceed_name_limit(name: &str, is_file: bool) -> (r: bool)
    ensures
        r == spec_would_exceed_name_limit(encode_utf8(name@).len(), is_file),
{
    proof {
        reveal_strlit(".dat");
        assert(FILE_EXT@.len() == 4);
    }
    let enc_bytes = name.as_bytes().len();
    let ext_len: usize = if is_file { 4 } else { 0 };
    if enc_bytes > NAME_LIMIT {
        return true;
    }
    let hex_len = enc_bytes * 2;
    (hex_len + ext_len) > NAME_LIMIT
}

/// A directory name comes back from its encrypted form.
pub proof fn lemma_dir_name_round_trip(password: Seq<u8>, name: Seq<char>)
    requires
        encode_utf8(name).len() <= KEYSTREAM_LIMIT,
    ensures
        spec_decrypt_dir_name(password, spec_encrypt_dir_name(password, name)) == Some(name),
{
    let key = spec_name_key(password);
    let bytes = encode_utf8(name);
    let enc = ctr_xor(key, NAME_NONCE@, 0, bytes);
    lemma_hex_round_trip(enc);
    lemma_ctr_xor_involution(key, NAME_NONCE@, 0, bytes);
    encode_utf8_valid_utf8(name);
    encode_utf8_decode_utf8(name);
}

/// A file name comes back from its encrypted form.
pub proof fn lemma_file_name_round_trip(password: Seq<u8>, name: Seq<char>)
    requires
        encode_utf8(name).len() <= KEYSTREAM_LIMIT,
    ensures
        has_suffix(spec_encrypt_file_name(password, name), FILE_EXT@),
        spec_decrypt_file_name(password, spec_encrypt_file_name(password, name)) == Some(name),
{
    let hex = spec_encrypt_dir_name(password, name);
    let full = spec_encrypt_file_name(password, name);
    assert(full.subrange(full.len() - FILE_EXT@.len(), full.len() as int) =~= FILE_EXT@);
    assert(full.subrange(0, full.len() - FILE_EXT@.len()) =~= hex);
    lemma_dir_name_round_trip(password, name);
}

/// The name key is PBKDF2-HMAC-SHA256 of the password with the fixed salt
/// `VAULT_NAME_KEY_!`, 100,000 rounds and a 32-byte output; an encrypted
/// file name is the lowercase hex of the name's UTF-8 bytes XORed with the
/// keystream of that key and the all-zero nonce, followed by `.dat`, and a
/// directory name the same without `.dat`.
pub proof fn lemma_name_encryption_is_pbkdf2_ctr(password: Seq<u8>, name: Seq<char>)
    ensures
        spec_name_key(password) == pbkdf2_hmac_sha256(password, name_salt_bytes(), 100_000, 32),
        spec_encrypt_dir_name(password, name) == spec_hex_encode(
            ctr_xor(
                pbkdf2_hmac_sha256(password, name_salt_bytes(), 100_000, 32),
                Seq::new(16, |i: int| 0u8),
                0,
                encode_utf8(name),
            ),
        ),
        spec_encrypt_file_name(password, name) == spec_hex_encode(
            ctr_xor(
                pbkdf2_hmac_sha256(password, name_salt_bytes(), 100_000, 32),
                Seq::new(16, |i: int| 0u8),
                0,
                encode_utf8(name),
            ),
        ) + seq!['.', 'd', 'a', 't'],
{
    reveal_strlit(".dat");
    assert(NAME_SALT@ =~= name_salt_bytes());
    assert(NAME_NONCE@ =~= Seq::new(16, |i: int| 0u8));
    assert(FILE_EXT@ =~= seq!['.', 'd', 'a', 't']);
}

/// `would_exceed_name_limit` tells exactly whether the encrypted name is
/// longer than the limit: an encrypted name has two characters per UTF-8
/// byte of the name, plus the extension for a file.
pub proof fn lemma_name_limit_matches_encrypted_length(password: Seq<u8>, name: Seq<char>)
    ensures
        spec_encrypt_dir_name(password, name).len() == 2 * encode_utf8(name).len(),
        spec_encrypt_file_name(password, name).len() == 2 * encode_utf8(name).len() + 4,
        spec_would_exceed_name_limit(encode_utf8(name).len(), false)
            <==> spec_encrypt_dir_name(password, name).len() > NAME_LIMIT,
        spec_would_exceed_name_limit(encode_utf8(name).len(), true)
            <==> spec_encrypt_file_name(password, name).len() > NAME_LIMIT,
{
    reveal_strlit(".dat");
}

/// `c` is one of `0-9` or `a-f`.
pub open spec fn is_lower_hex_char(c: char) -> bool {
    48 <= c as u32 <= 57 || 97 <= c as u32 <= 102
}

/// An encrypted directory name consists of lowercase hex digits only, so
/// it never holds a `.` and never looks like an encrypted file name.
pub proof fn lemma_encrypted_dir_name_is_hex(password: Seq<u8>, name: Seq<char>)
    ensures
        forall|i: int|
            0 <= i < spec_encrypt_dir_name(password, name).len() ==> #[trigger] is_lower_hex_char(
                spec_encrypt_dir_name(password, name)[i],
            ),
{
}

/// An encrypted file name is the encrypted directory name of the same name
/// followed by `.dat`: twice as many lowercase hex digits as the name has
/// UTF-8 bytes, then the extension.
pub proof fn lemma_encrypted_file_name_shape(password: Seq<u8>, name: Seq<char>)
    ensures
        spec_encrypt_file_name(password, name) == spec_encrypt_dir_name(password, name) + ".dat"@,
        spec_encrypt_file_name(password, name).len() == 2 * encode_utf8(name).len() + 4,
        forall|i: int|
            0 <= i < 2 * encode_utf8(name).len() ==> #[trigger] is_lower_hex_char(
                spec_encrypt_file_name(password, name)[i],
            ),
        spec_encrypt_file_name(password, name).subrange(
            2 * encode_utf8(name).len() as int,
            (2 * encode_utf8(name).len() + 4) as int,
        ) == ".dat"@,
{
    reveal_strlit(".dat");
    let d = spec_encrypt_dir_name(password, name);
    let f = spec_encrypt_file_name(password, name);
    lemma_encrypted_dir_name_is_hex(password, name);
    assert forall|i: int| 0 <= i < 2 * encode_utf8(name).len() implies #[trigger] is_lower_hex_char(f[i]) by {
        assert(f[i] == d[i]);
    }
    assert(f.subrange(2 * encode_utf8(name).len() as int, (2 * encode_utf8(name).len() + 4) as int) =~= ".dat"@);
}

} // verus!
