//! What encrypting and decrypting one file does to its bytes: which byte
//! ranges go through the cipher, which trailer is appended, how long the
//! restored file is, and which names the file takes. The caller performs
//! the reads, writes and renames.

use crate::crypto::{
    aes256_ctr32be_keystream, apply_ctr_from, derive_key, spec_derive_key, HEAD_SIZE,
    KEYSTREAM_LIMIT, KEY_LEN, NONCE_LEN, SMALL_FILE_THRESHOLD, TAIL_SIZE,
};
use crate::error::VaultError;
use crate::metadata::{
    lemma_detect_appended_trailer, round_trippable, spec_detect, spec_read_from_file,
    spec_to_bytes, FileMetadata, MetadataModel, MAX_TRAILER_LEN,
};
use crate::name_encrypt::{encrypt_file_name, spec_encrypt_file_name};
use vstd::prelude::*;
use vstd::slice::{slice_subrange, slice_to_vec};
use vstd::utf8::*;

verus! {

/// A byte range of a file: `len` bytes from `offset`.
#[derive(Clone, Copy, Debug, PartialEq, Eq, Structural)]
pub struct Span {
    pub offset: u64,
    pub len: u64,
}

/// The ranges that go through the cipher in a file of `size` bytes: all of
/// it up to 128 KiB, else the first and the last 64 KiB.
pub open spec fn spec_content_spans(size: u64) -> Seq<Span> {
    if size <= SMALL_FILE_THRESHOLD {
        seq![Span { offset: 0, len: size }]
    } else {
        seq![
            Span { offset: 0, len: HEAD_SIZE as u64 },
            Span { offset: (size - TAIL_SIZE) as u64, len: TAIL_SIZE as u64 },
        ]
    }
}

/// The ranges encryption sends through the cipher, in order.
pub fn encrypt_spans(size: u64) -> (spans: Vec<Span>)
    ensures
        spans@ == spec_content_spans(size),
{
    let mut spans: Vec<Span> = Vec::new();
    if size <= SMALL_FILE_THRESHOLD as u64 {
        spans.push(Span { offset: 0, len: size });
    } else {
        spans.push(Span { offset: 0, len: HEAD_SIZE as u64 });
        spans.push(Span { offset: size - TAIL_SIZE as u64, len: TAIL_SIZE as u64 });
    }
    assert(spans@ =~= spec_content_spans(size));
    spans
}

/// Everything `encrypt_file` needs besides the file itself.
pub struct EncryptPlan {
    /// The metadata written into the trailer, with fresh random salt and nonces.
    pub metadata: FileMetadata,
    /// The content key, derived from the password and the metadata's salt.
    pub key: [u8; KEY_LEN],
    /// The ranges to encrypt in place with `key` and the metadata's nonce,
    /// each from its own offset in the keystream.
    pub spans: Vec<Span>,
    /// The bytes to append after the content.
    pub trailer: Vec<u8>,
    /// The name the file is renamed to.
    pub enc_name: String,
}

/// The encryption of a file named `orig_name` of `orig_size` bytes,
/// modified at `orig_mtime`.
pub fn plan_encrypt_file(orig_name: String, orig_size: u64, orig_mtime: i64, password: &[u8]) -> (p: EncryptPlan)
    requires
        encode_utf8(orig_name@).len() + 22 <= KEYSTREAM_LIMIT,
    ensures
        p.metadata.orig_name@ == orig_name@,
        p.metadata.orig_size == orig_size,
        p.metadata.orig_mtime == orig_mtime,
        p.key@ == spec_derive_key(password@, p.metadata.salt@),
        p.spans@ == spec_content_spans(orig_size),
        p.trailer@ == spec_to_bytes(p.metadata@, password@),
        p.enc_name@ == spec_encrypt_file_name(password@, orig_name@),
{
    let metadata = FileMetadata::new(orig_name, orig_size, orig_mtime);
    let key = derive_key(password, &metadata.salt);
    let spans = encrypt_spans(orig_size);
    let trailer = metadata.to_bytes(password);
    let enc_name = encrypt_file_name(password, metadata.orig_name.as_str());
    EncryptPlan { metadata, key, spans, trailer, enc_name }
}

/// Everything `decrypt_file` needs besides the file itself.
pub struct DecryptPlan {
    /// The metadata read from the trailer.
    pub metadata: FileMetadata,
    /// The content key, derived from the password and the metadata's salt.
    pub key: [u8; KEY_LEN],
    /// The ranges to decrypt in place with `key` and the metadata's nonce,
    /// each from its own offset in the keystream.
    pub spans: Vec<Span>,
    /// The length the file is cut (or zero-extended) to afterwards.
    pub final_len: u64,
}

/// The ranges decryption sends through the cipher in a file of `file_len`
/// bytes whose trailer is `meta_len` bytes and which held `orig_size`
/// bytes: everything before the trailer for a small file, else the first
/// 64 KiB and the 64 KiB that ended the original content.
pub open spec fn spec_decrypt_spans(orig_size: u64, file_len: u64, meta_len: u32) -> Seq<Span> {
    if orig_size <= SMALL_FILE_THRESHOLD {
        seq![Span { offset: 0, len: (file_len - meta_len) as u64 }]
    } else {
        seq![
            Span { offset: 0, len: HEAD_SIZE as u64 },
            Span { offset: (orig_size - TAIL_SIZE) as u64, len: TAIL_SIZE as u64 },
        ]
    }
}

/// The result `plan_decrypt_file` owes for a file of `file_len` bytes that
/// ends with `tail`: the metadata, the trailer length, or the error.
pub open spec fn spec_plan_decrypt(tail: Seq<u8>, password: Seq<u8>) -> Option<(MetadataModel, u32)> {
    match spec_read_from_file(tail, password) {
        Some(m) => match spec_detect(tail) {
            Some(l) => Some((m, l)),
            None => None,
        },
        None => None,
    }
}

/// The spans of a decryption lie within the content before the trailer
/// and within the keystream; otherwise the trailer is corrupt.
pub open spec fn decrypt_spans_ok(orig_size: u64, file_len: u64, meta_len: u32) -> bool {
    let spans = spec_decrypt_spans(orig_size, file_len, meta_len);
    spans_fit(spans, file_len - meta_len) && spans_in_keystream(spans)
}

/// The decryption of a file of `file_len` bytes, given its last bytes
/// `tail` (at least its last `MAX_TRAILER_LEN` bytes, or all of it).
/// Fails with `InvalidPassword` when no trailer reads with this password,
/// and with `CorruptedMetadata` when the trailer asks for bytes beyond the
/// content before it or beyond the keystream.
pub fn plan_decrypt_file(path: &str, tail: &[u8], file_len: u64, password: &[u8]) -> (r: Result<DecryptPlan, VaultError>)
    requires
        tail@.len() <= file_len,
    ensures
        spec_read_from_file(tail@, password@) is None ==> r == Err::<DecryptPlan, VaultError>(
            VaultError::InvalidPassword,
        ),
        spec_plan_decrypt(tail@, password@) matches Some((m, l)) ==> {
            &&& (r is Ok <==> decrypt_spans_ok(m.orig_size, file_len, l))
            &&& (!decrypt_spans_ok(m.orig_size, file_len, l) ==> (r matches Err(
                VaultError::CorruptedMetadata(q),
            ) && q@ == path@))
        },
        r matches Ok(p) ==> {
            &&& spec_plan_decrypt(tail@, password@) matches Some((m, l)) && {
                &&& p.metadata@ == m
                &&& p.key@ == spec_derive_key(password@, m.salt)
                &&& p.spans@ == spec_decrypt_spans(m.orig_size, file_len, l)
                &&& p.final_len == m.orig_size
                &&& spans_fit(p.spans@, file_len - l)
                &&& spans_in_keystream(p.spans@)
                &&& spans_disjoint(p.spans@)
            }
        },
{
    let metadata = match FileMetadata::read_from_file(tail, password) {
        Some(m) => m,
        None => return Err(VaultError::InvalidPassword),
    };
    let meta_len = match FileMetadata::detect(tail) {
        Some(l) => l,
        None => return Err(VaultError::CorruptedMetadata(String::from_str(path))),
    };
    let content_len = file_len - meta_len as u64;
    let key = derive_key(password, &metadata.salt);
    let orig_size = metadata.orig_size;
    let mut spans: Vec<Span> = Vec::new();
    if orig_size <= SMALL_FILE_THRESHOLD as u64 {
        if content_len > KEYSTREAM_LIMIT {
            proof {
                let sp = spec_decrypt_spans(orig_size, file_len, meta_len);
                assert(sp[0].offset + sp[0].len > KEYSTREAM_LIMIT);
                assert(!spans_in_keystream(sp));
            }
            return Err(VaultError::CorruptedMetadata(String::from_str(path)));
        }
        spans.push(Span { offset: 0, len: content_len });
    } else {
        if orig_size > content_len || orig_size > KEYSTREAM_LIMIT {
            proof {
                let sp = spec_decrypt_spans(orig_size, file_len, meta_len);
                assert(sp[1].offset + sp[1].len == orig_size);
                assert(!spans_fit(sp, file_len - meta_len) || !spans_in_keystream(sp));
            }
            return Err(VaultError::CorruptedMetadata(String::from_str(path)));
        }
        spans.push(Span { offset: 0, len: HEAD_SIZE as u64 });
        spans.push(Span { offset: orig_size - TAIL_SIZE as u64, len: TAIL_SIZE as u64 });
    }
    let ghost l = spec_detect(tail@)->0;
    assert(spans@ =~= spec_decrypt_spans(orig_size, file_len, l));
    Ok(DecryptPlan { metadata, key, spans, final_len: orig_size })
}

/// Position `p` lies in one of the spans.
pub open spec fn in_spans(p: int, spans: Seq<Span>) -> bool {
    exists|j: int| 0 <= j < spans.len() && #[trigger] spans[j].offset <= p < spans[j].offset + spans[j].len
}

/// Every span lies within `len` bytes, so each can be read whole.
pub open spec fn spans_fit(spans: Seq<Span>, len: int) -> bool {
    forall|j: int| 0 <= j < spans.len() ==> #[trigger] spans[j].offset + spans[j].len <= len
}

/// `data` with the bytes inside the spans XORed with the keystream at their
/// own positions: what processing each span in place does to a file.
pub open spec fn spec_apply_spans(key: Seq<u8>, nonce: Seq<u8>, data: Seq<u8>, spans: Seq<Span>) -> Seq<u8> {
    Seq::new(
        data.len(),
        |p: int|
            if in_spans(p, spans) {
                data[p] ^ aes256_ctr32be_keystream(key, nonce, p)
            } else {
                data[p]
            },
    )
}

/// No two spans share a position.
pub open spec fn spans_disjoint(spans: Seq<Span>) -> bool {
    forall|a: int, b: int|
        0 <= a < b < spans.len() ==> #[trigger] spans[a].offset + spans[a].len <= #[trigger] spans[b].offset
            || spans[b].offset + spans[b].len <= spans[a].offset
}

/// Every span ends within the keystream.
pub open spec fn spans_in_keystream(spans: Seq<Span>) -> bool {
    forall|j: int| 0 <= j < spans.len() ==> #[trigger] spans[j].offset + spans[j].len <= KEYSTREAM_LIMIT
}

/// Runs each span of a buffer through the cipher in place, each from its
/// own position in the keystream: what encrypting or decrypting a file
/// does to its content.
pub fn apply_spans(data: &mut Vec<u8>, spans: &Vec<Span>, key: &[u8; KEY_LEN], nonce: &[u8; NONCE_LEN])
    requires
        spans_fit(spans@, old(data)@.len() as int),
        spans_disjoint(spans@),
        spans_in_keystream(spans@),
    ensures
        final(data)@ == spec_apply_spans(key@, nonce@, old(data)@, spans@),
{
    let ghost orig = data@;
    let mut k: usize = 0;
    while k < spans.len()
        invariant
            0 <= k <= spans@.len(),
            spans_fit(spans@, orig.len() as int),
            spans_disjoint(spans@),
            spans_in_keystream(spans@),
            data@ == spec_apply_spans(key@, nonce@, orig, spans@.take(k as int)),
        decreases spans@.len() - k,
    {
        let span = spans[k];
        assert(spans@[k as int] == span);
        assert(span.offset + span.len <= orig.len());
        assert(span.offset + span.len <= KEYSTREAM_LIMIT);
        let n = data.len();
        assert(n == orig.len());
        let a = span.offset as usize;
        let b = (span.offset + span.len) as usize;
        assert(a as int == span.offset as int && b as int == span.offset + span.len);
        let ghost before = data@;
        let mut buf = slice_to_vec(slice_subrange(data.as_slice(), a, b));
        apply_ctr_from(key, nonce, span.offset, buf.as_mut_slice());
        let mut i: usize = 0;
        while i < b - a
            invariant
                a <= b <= before.len(),
                b - a == buf@.len(),
                0 <= i <= b - a,
                data@.len() == before.len(),
                buf@ == crate::crypto::ctr_xor(key@, nonce@, a as int, before.subrange(a as int, b as int)),
                forall|p: int| 0 <= p < data@.len() ==> #[trigger] data@[p] == (if a <= p < a + i {
                    before[p] ^ aes256_ctr32be_keystream(key@, nonce@, p)
                } else {
                    before[p]
                }),
            decreases b - a - i,
        {
            data.set(a + i, buf[i]);
            i = i + 1;
        }
        proof {
            let taken = spans@.take(k as int);
            let next = spans@.take(k + 1);
            assert forall|p: int| 0 <= p < orig.len() implies #[trigger] in_spans(p, next) == (in_spans(p, taken)
                || (a <= p < b)) by {
                if in_spans(p, next) {
                    let j = choose|j: int| 0 <= j < next.len() && #[trigger] next[j].offset <= p < next[j].offset + next[j].len;
                    if j < k {
                        assert(taken[j] == next[j]);
                    }
                }
                if in_spans(p, taken) {
                    let j = choose|j: int| 0 <= j < taken.len() && #[trigger] taken[j].offset <= p < taken[j].offset + taken[j].len;
                    assert(next[j] == taken[j]);
                }
                if a <= p < b {
                    assert(next[k as int] == span);
                }
            }
            assert forall|p: int| a <= p < b implies !#[trigger] in_spans(p, taken) by {
                if in_spans(p, taken) {
                    let j = choose|j: int| 0 <= j < taken.len() && #[trigger] taken[j].offset <= p < taken[j].offset + taken[j].len;
                    assert(spans@[j] == taken[j]);
                    assert(spans@[k as int] == span);
                }
            }
            assert(data@ =~= spec_apply_spans(key@, nonce@, orig, next));
        }
        k = k + 1;
    }
    assert(spans@.take(spans@.len() as int) =~= spans@);
}

/// A file cut to `n` bytes, or extended with zero bytes to `n` bytes.
pub open spec fn spec_set_len(data: Seq<u8>, n: nat) -> Seq<u8> {
    if n <= data.len() {
        data.subrange(0, n as int)
    } else {
        data + Seq::new((n - data.len()) as nat, |i: int| 0u8)
    }
}

/// The last `MAX_TRAILER_LEN` bytes of a file, or all of it when shorter:
/// what the caller reads to find the trailer.
pub open spec fn file_tail(data: Seq<u8>) -> Seq<u8> {
    if data.len() <= MAX_TRAILER_LEN {
        data
    } else {
        data.subrange(data.len() - MAX_TRAILER_LEN, data.len() as int)
    }
}

/// The bytes of a file after `encrypt_file` with metadata `m`: the content
/// with its spans encrypted, then the trailer.
pub open spec fn spec_encrypt_image(content: Seq<u8>, m: MetadataModel, password: Seq<u8>) -> Seq<u8> {
    spec_apply_spans(
        spec_derive_key(password, m.salt),
        m.nonce,
        content,
        spec_content_spans(content.len() as u64),
    ) + spec_to_bytes(m, password)
}

/// The bytes of a file after `decrypt_file`, or `None` when it fails: no
/// trailer reads with the password, or a span reaches past the content
/// before the trailer or past the keystream.
pub open spec fn spec_decrypt_image(data: Seq<u8>, password: Seq<u8>) -> Option<Seq<u8>> {
    match spec_plan_decrypt(file_tail(data), password) {
        Some((m, l)) => {
            let spans = spec_decrypt_spans(m.orig_size, data.len() as u64, l);
            if decrypt_spans_ok(m.orig_size, data.len() as u64, l) {
                Some(
                    spec_set_len(
                        spec_apply_spans(spec_derive_key(password, m.salt), m.nonce, data, spans),
                        m.orig_size as nat,
                    ),
                )
            } else {
                None
            }
        },
        None => None,
    }
}

/// Decrypting an encrypted file with the same password restores its
/// content exactly, for small files (fully encrypted) and large ones
/// (head and tail encrypted) alike.
pub proof fn lemma_file_round_trip(content: Seq<u8>, m: MetadataModel, password: Seq<u8>)
    requires
        round_trippable(m),
        m.orig_size == content.len(),
        spec_to_bytes(m, password).len() <= MAX_TRAILER_LEN,
        content.len() <= KEYSTREAM_LIMIT,
    ensures
        spec_decrypt_image(spec_encrypt_image(content, m, password), password) == Some(content),
        spec_read_from_file(file_tail(spec_encrypt_image(content, m, password)), password) == Some(m),
{
    let key = spec_derive_key(password, m.salt);
    let size = m.orig_size;
    let spans = spec_content_spans(size);
    let enc = spec_apply_spans(key, m.nonce, content, spans);
    let t = spec_to_bytes(m, password);
    let data = enc + t;
    let n = data.len() as int;
    let tail = file_tail(data);
    let prefix = tail.subrange(0, tail.len() - t.len());
    assert(tail =~= prefix + t);
    lemma_detect_appended_trailer(prefix, m, password);
    assert(spec_plan_decrypt(tail, password) == Some((m, t.len() as u32)));
    let dspans = spec_decrypt_spans(size, n as u64, t.len() as u32);
    assert(dspans =~= spans);
    assert(decrypt_spans_ok(size, n as u64, t.len() as u32));
    assert(spans_fit(dspans, n));
    let dec = spec_apply_spans(key, m.nonce, data, dspans);
    assert forall|p: int| 0 <= p < size implies dec[p] == content[p] by {
        if in_spans(p, spans) {
            let a = content[p];
            let k = aes256_ctr32be_keystream(key, m.nonce, p);
            assert((a ^ k) ^ k == a) by (bit_vector);
        }
    }
    assert(spec_set_len(dec, size as nat) =~= content);
}

/// What encryption does to each byte of the content: a file up to 128 KiB
/// is encrypted whole, a larger one in its first and last 64 KiB only, and
/// every encrypted byte is XORed with the keystream at its own position.
/// The encrypted file is the original length plus the trailer.
pub proof fn lemma_encrypted_bytes(content: Seq<u8>, m: MetadataModel, password: Seq<u8>, p: int)
    requires
        content.len() <= u64::MAX,
        0 <= p < content.len(),
    ensures
        spec_encrypt_image(content, m, password).len() == content.len() + spec_to_bytes(m, password).len(),
        spec_encrypt_image(content, m, password)[p] == (if content.len() <= SMALL_FILE_THRESHOLD || p < HEAD_SIZE
            || p >= content.len() - TAIL_SIZE {
            content[p] ^ aes256_ctr32be_keystream(spec_derive_key(password, m.salt), m.nonce, p)
        } else {
            content[p]
        }),
{
    let spans = spec_content_spans(content.len() as u64);
    if content.len() <= SMALL_FILE_THRESHOLD {
        assert(spans[0].offset <= p < spans[0].offset + spans[0].len);
    } else if p < HEAD_SIZE {
        assert(spans[0].offset <= p < spans[0].offset + spans[0].len);
    } else if p >= content.len() - TAIL_SIZE {
        assert(spans[1].offset <= p < spans[1].offset + spans[1].len);
    } else {
        assert(!in_spans(p, spans)) by {
            if in_spans(p, spans) {
                let j = choose|j: int| 0 <= j < spans.len() && #[trigger] spans[j].offset <= p < spans[j].offset + spans[j].len;
                assert(j == 0 || j == 1);
            }
        }
    }
}

/// A file above 128 KiB keeps its middle in the clear: encryption changes
/// nothing between its first and its last 64 KiB.
pub proof fn lemma_large_file_middle_untouched(content: Seq<u8>, m: MetadataModel, password: Seq<u8>, p: int)
    requires
        content.len() > SMALL_FILE_THRESHOLD,
        content.len() <= u64::MAX,
        HEAD_SIZE <= p < content.len() - TAIL_SIZE,
    ensures
        spec_encrypt_image(content, m, password)[p] == content[p],
{
    let spans = spec_content_spans(content.len() as u64);
    assert(!in_spans(p, spans)) by {
        if in_spans(p, spans) {
            let j = choose|j: int| 0 <= j < spans.len() && #[trigger] spans[j].offset <= p < spans[j].offset + spans[j].len;
            assert(j == 0 || j == 1);
        }
    }
}

} // verus!
