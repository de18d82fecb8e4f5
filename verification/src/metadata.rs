//! The metadata trailer appended to every encrypted file: magic, salt,
//! content nonce, metadata nonce, the encrypted original name, size and
//! modification time with a CRC32 checksum, and the trailer's total length.

use crate::crypto::{
    apply_ctr, ctr_xor, derive_key, lemma_ctr_xor_involution, lemma_ctr_xor_piece,
    spec_derive_key, KEYSTREAM_LIMIT, NONCE_LEN, SALT_LEN,
};
use crate::text::string_from_utf8;
use rand::RngCore;
use vstd::bytes::*;
use vstd::prelude::*;
use vstd::slice::{slice_subrange, slice_to_vec};
use vstd::utf8::*;

verus! {

/// The four bytes `VALT` that open every trailer.
pub const MAGIC: [u8; 4] = [0x56, 0x41, 0x4C, 0x54];

/// Magic, salt, nonce and metadata nonce: the plaintext part of a trailer.
pub const HEADER_LEN: usize = 52;

/// Shortest trailer: header, a body with an empty name, and the length field.
pub const MIN_TRAILER_LEN: u32 = 78;

/// Longest trailer that `detect` accepts.
pub const MAX_TRAILER_LEN: u32 = 10_000;

/// One bit step of the reflected CRC-32 register (polynomial 0xEDB88320).
pub open spec fn crc32_bit(c: u32) -> u32 {
    if c & 1 == 1 {
        (c >> 1) ^ 0xEDB8_8320
    } else {
        c >> 1
    }
}

/// The CRC-32 register after taking in one byte.
pub open spec fn crc32_byte(c: u32, b: u8) -> u32 {
    crc32_bit(crc32_bit(crc32_bit(crc32_bit(crc32_bit(crc32_bit(crc32_bit(crc32_bit(c ^ (b as u32)))))))))
}

/// The CRC-32 register after taking in `data`, starting from all ones.
pub open spec fn crc32_register(data: Seq<u8>) -> u32
    decreases data.len(),
{
    if data.len() == 0 {
        0xFFFF_FFFF
    } else {
        crc32_byte(crc32_register(data.drop_last()), data.last())
    }
}

/// The CRC-32 (IEEE) checksum of a byte string: the final register,
/// inverted.
pub open spec fn crc32_ieee(data: Seq<u8>) -> u32 {
    crc32_register(data) ^ 0xFFFF_FFFF
}


/// Calls `crc32fast::hash`, the CRC-32 (IEEE) checksum of the buffer: the
/// hasher starts from state 0, keeps the register inverted, and returns it
/// inverted back, which is the all-ones start and final inversion above.
#[verifier::external_body]
fn crc32_hash(data: &[u8]) -> (c: u32)
    ensures
        c == crc32_ieee(data@),
{
    crc32fast::hash(data)
}

/// Calls `rand::thread_rng().fill_bytes`, which overwrites the buffer with
/// random bytes; nothing is promised of their values. It panics only when
/// the operating system's random source cannot seed the generator, which
/// no argument can rule out.
#[verifier::external_body]
fn fill_random(buf: &mut [u8; 16]) {
    rand::thread_rng().fill_bytes(buf);
}

/// What an encrypted file records about itself.
#[derive(Debug)]
pub struct FileMetadata {
    pub salt: [u8; SALT_LEN],
    pub nonce: [u8; NONCE_LEN],
    pub meta_nonce: [u8; NONCE_LEN],
    pub orig_name: String,
    pub orig_size: u64,
    pub orig_mtime: i64,
}

/// The mathematical content of a `FileMetadata`.
pub struct MetadataModel {
    pub salt: Seq<u8>,
    pub nonce: Seq<u8>,
    pub meta_nonce: Seq<u8>,
    pub orig_name: Seq<char>,
    pub orig_size: u64,
    pub orig_mtime: i64,
}

impl View for FileMetadata {
    type V = MetadataModel;

    open spec fn view(&self) -> MetadataModel {
        MetadataModel {
            salt: self.salt@,
            nonce: self.nonce@,
            meta_nonce: self.meta_nonce@,
            orig_name: self.orig_name@,
            orig_size: self.orig_size,
            orig_mtime: self.orig_mtime,
        }
    }
}

/// Length, name, size and time, before the checksum is added.
pub open spec fn spec_body_fields(m: MetadataModel) -> Seq<u8> {
    let name = encode_utf8(m.orig_name);
    spec_u16_to_le_bytes(name.len() as u16) + name + spec_u64_to_le_bytes(m.orig_size)
        + spec_u64_to_le_bytes(m.orig_mtime as u64)
}

/// The plaintext body: the fields and their CRC-32.
pub open spec fn spec_body(m: MetadataModel) -> Seq<u8> {
    spec_body_fields(m) + spec_u32_to_le_bytes(crc32_ieee(spec_body_fields(m)))
}

/// The trailer without its final length field.
pub open spec fn spec_trailer_head(m: MetadataModel, password: Seq<u8>) -> Seq<u8> {
    MAGIC@ + m.salt + m.nonce + m.meta_nonce + ctr_xor(
        spec_derive_key(password, m.salt),
        m.meta_nonce,
        0,
        spec_body(m),
    )
}

/// The trailer `to_bytes` writes.
pub open spec fn spec_to_bytes(m: MetadataModel, password: Seq<u8>) -> Seq<u8> {
    let head = spec_trailer_head(m, password);
    head + spec_u32_to_le_bytes((head.len() + 4) as u32)
}

/// Name, size and time from a decrypted body, when its length field fits,
/// the name is UTF-8 and the checksum matches.
pub open spec fn spec_parse_body(body: Seq<u8>) -> Option<(Seq<char>, u64, i64)> {
    if body.len() < 22 {
        None
    } else {
        let nl = spec_u16_from_le_bytes(body.subrange(0, 2)) as int;
        if body.len() < 22 + nl {
            None
        } else if !valid_utf8(body.subrange(2, 2 + nl)) {
            None
        } else if spec_u32_from_le_bytes(body.subrange(18 + nl, 22 + nl)) != crc32_ieee(
            body.subrange(0, 18 + nl),
        ) {
            None
        } else {
            Some(
                (
                    decode_utf8(body.subrange(2, 2 + nl)),
                    spec_u64_from_le_bytes(body.subrange(2 + nl, 10 + nl)),
                    spec_u64_from_le_bytes(body.subrange(10 + nl, 18 + nl)) as i64,
                ),
            )
        }
    }
}

/// The metadata `from_bytes` reads from a trailer with a password.
pub open spec fn spec_from_bytes(data: Seq<u8>, password: Seq<u8>) -> Option<MetadataModel> {
    if data.len() < 56 || data.subrange(0, 4) != MAGIC@ {
        None
    } else {
        let salt = data.subrange(4, 20);
        let meta_nonce = data.subrange(36, 52);
        let body = ctr_xor(
            spec_derive_key(password, salt),
            meta_nonce,
            0,
            data.subrange(52, data.len() as int),
        );
        match spec_parse_body(body) {
            Some((name, size, mtime)) => Some(
                MetadataModel {
                    salt,
                    nonce: data.subrange(20, 36),
                    meta_nonce,
                    orig_name: name,
                    orig_size: size,
                    orig_mtime: mtime,
                },
            ),
            None => None,
        }
    }
}

/// The trailer length `detect` finds at the end of `data`: the last four
/// bytes, read as a little-endian length, must lie in the accepted range,
/// fit in `data`, and point at the magic.
pub open spec fn spec_detect(data: Seq<u8>) -> Option<u32> {
    if data.len() < 4 {
        None
    } else {
        let len = spec_u32_from_le_bytes(data.subrange(data.len() - 4, data.len() as int));
        if len < MIN_TRAILER_LEN || len > MAX_TRAILER_LEN || len > data.len() {
            None
        } else if data.subrange(data.len() - len, data.len() - len + 4) != MAGIC@ {
            None
        } else {
            Some(len)
        }
    }
}

/// The metadata `read_from_file` finds in a whole file.
pub open spec fn spec_read_from_file(data: Seq<u8>, password: Seq<u8>) -> Option<MetadataModel> {
    match spec_detect(data) {
        Some(len) => spec_from_bytes(data.subrange(data.len() - len, data.len() as int), password),
        None => None,
    }
}

/// A trailer with the magic has a body no longer than one keystream
/// covers (the cipher panics past that).
pub open spec fn body_fits(data: Seq<u8>) -> bool {
    data.len() >= 56 && data.subrange(0, 4) == MAGIC@ ==> data.len() - HEADER_LEN <= KEYSTREAM_LIMIT
}

/// The 16 bytes of `data` from `start` on.
fn copy_16(data: &[u8], start: usize) -> (a: [u8; 16])
    requires
        start + 16 <= data@.len(),
    ensures
        a@ == data@.subrange(start as int, start + 16),
{
    let mut a = [0u8; 16];
    let n = data.len();
    let mut i: usize = 0;
    while i < 16
        invariant
            start + 16 <= data@.len(),
            n == data@.len(),
            0 <= i <= 16,
            a@.len() == 16,
            forall|j: int| 0 <= j < i ==> a@[j] == data@[start + j],
        decreases 16 - i,
    {
        a[i] = data[start + i];
        i = i + 1;
    }
    assert(a@ =~= data@.subrange(start as int, start + 16));
    a
}

impl FileMetadata {
    /// Metadata for a file about to be encrypted, with a fresh random salt,
    /// content nonce and metadata nonce.
    pub fn new(orig_name: String, orig_size: u64, orig_mtime: i64) -> (m: Self)
        ensures
            m.orig_name@ == orig_name@,
            m.orig_size == orig_size,
            m.orig_mtime == orig_mtime,
    {
        let mut salt = [0u8; 16];
        let mut nonce = [0u8; 16];
        let mut meta_nonce = [0u8; 16];
        fill_random(&mut salt);
        fill_random(&mut nonce);
        fill_random(&mut meta_nonce);
        FileMetadata { salt, nonce, meta_nonce, orig_name, orig_size, orig_mtime }
    }

    /// The trailer: magic, salt, nonce, metadata nonce, the body encrypted
    /// with the metadata nonce, and the trailer's total length.
    pub fn to_bytes(&self, password: &[u8]) -> (out: Vec<u8>)
        requires
            encode_utf8(self.orig_name@).len() + 22 <= KEYSTREAM_LIMIT,
        ensures
            out@ == spec_to_bytes(self@, password@),
    {
        let key = derive_key(password, &self.salt);
        let name_bytes = self.orig_name.as_str().as_bytes();
        let mut body: Vec<u8> = Vec::new();
        let mut part = u16_to_le_bytes(name_bytes.len() as u16);
        body.append(&mut part);
        let mut part = slice_to_vec(name_bytes);
        body.append(&mut part);
        let mut part = u64_to_le_bytes(self.orig_size);
        body.append(&mut part);
        let mut part = u64_to_le_bytes(self.orig_mtime as u64);
        body.append(&mut part);
        assert(body@ =~= spec_body_fields(self@));
        let checksum = crc32_hash(body.as_slice());
        let mut part = u32_to_le_bytes(checksum);
        body.append(&mut part);
        assert(body@ =~= spec_body(self@));
        apply_ctr(&key, &self.meta_nonce, body.as_mut_slice());
        let mut out: Vec<u8> = Vec::new();
        let mut part = slice_to_vec(&MAGIC);
        out.append(&mut part);
        let mut part = slice_to_vec(&self.salt);
        out.append(&mut part);
        let mut part = slice_to_vec(&self.nonce);
        out.append(&mut part);
        let mut part = slice_to_vec(&self.meta_nonce);
        out.append(&mut part);
        out.append(&mut body);
        assert(out@ =~= spec_trailer_head(self@, password@));
        let meta_len = (out.len() as u32).wrapping_add(4);
        proof {
            lemma_length_field(out.len() as u64);
        }
        let mut part = u32_to_le_bytes(meta_len);
        out.append(&mut part);
        out
    }

    /// Reads a trailer back with a password; `None` when it is too short,
    /// lacks the magic, or its decrypted body does not check out.
    pub fn from_bytes(data: &[u8], password: &[u8]) -> (r: Option<Self>)
        requires
            body_fits(data@),
        ensures
            r is None <==> spec_from_bytes(data@, password@) is None,
            r matches Some(m) ==> spec_from_bytes(data@, password@) == Some(m@),
    {
        if data.len() < 56 {
            return None;
        }
        if data[0] != MAGIC[0] || data[1] != MAGIC[1] || data[2] != MAGIC[2] || data[3] != MAGIC[3] {
            assert(data@.subrange(0, 4) != MAGIC@) by {
                if data@.subrange(0, 4) == MAGIC@ {
                    assert(data@.subrange(0, 4)[0] == data@[0]);
                    assert(data@.subrange(0, 4)[1] == data@[1]);
                    assert(data@.subrange(0, 4)[2] == data@[2]);
                    assert(data@.subrange(0, 4)[3] == data@[3]);
                }
            }
            return None;
        }
        assert(data@.subrange(0, 4) =~= MAGIC@);
        let salt = copy_16(data, 4);
        let nonce = copy_16(data, 20);
        let meta_nonce = copy_16(data, 36);
        let key = derive_key(password, &salt);
        let mut body = slice_to_vec(slice_subrange(data, 52, data.len()));
        apply_ctr(&key, &meta_nonce, body.as_mut_slice());
        let ghost spec_body = body@;
        if body.len() < 22 {
            return None;
        }
        let name_len = u16_from_le_bytes(slice_subrange(body.as_slice(), 0, 2)) as usize;
        if body.len() < 22 + name_len {
            return None;
        }
        let name_vec = slice_to_vec(slice_subrange(body.as_slice(), 2, 2 + name_len));
        let orig_name = match string_from_utf8(name_vec) {
            Ok(s) => s,
            Err(_) => return None,
        };
        let orig_size = u64_from_le_bytes(
            slice_subrange(body.as_slice(), 2 + name_len, 10 + name_len),
        );
        let orig_mtime = u64_from_le_bytes(
            slice_subrange(body.as_slice(), 10 + name_len, 18 + name_len),
        ) as i64;
        let stored_checksum = u32_from_le_bytes(
            slice_subrange(body.as_slice(), 18 + name_len, 22 + name_len),
        );
        let computed_checksum = crc32_hash(slice_subrange(body.as_slice(), 0, 18 + name_len));
        if stored_checksum != computed_checksum {
            return None;
        }
        let m = FileMetadata { salt, nonce, meta_nonce, orig_name, orig_size, orig_mtime };
        assert(spec_from_bytes(data@, password@) == Some(m@));
        Some(m)
    }

    /// Finds a trailer at the end of a file's bytes and returns its length.
    /// Only the last `MAX_TRAILER_LEN` bytes matter, so a caller may pass
    /// just that tail of a large file.
    pub fn detect(data: &[u8]) -> (r: Option<u32>)
        ensures
            r == spec_detect(data@),
    {
        let n = data.len();
        if n < 4 {
            return None;
        }
        let meta_len = u32_from_le_bytes(slice_subrange(data, n - 4, n));
        if meta_len < MIN_TRAILER_LEN || meta_len > MAX_TRAILER_LEN {
            return None;
        }
        let len = meta_len as usize;
        if len > n {
            return None;
        }
        let start = n - len;
        let ok = data[start] == MAGIC[0] && data[start + 1] == MAGIC[1] && data[start + 2] == MAGIC[2]
            && data[start + 3] == MAGIC[3];
        let ghost magic_here = data@.subrange(start as int, start + 4);
        assert(magic_here == MAGIC@ <==> ok) by {
            if ok {
                assert(magic_here =~= MAGIC@);
            } else if magic_here == MAGIC@ {
                assert(magic_here[0] == data@[start as int]);
                assert(magic_here[1] == data@[start + 1]);
                assert(magic_here[2] == data@[start + 2]);
                assert(magic_here[3] == data@[start + 3]);
            }
        }
        if ok {
            Some(meta_len)
        } else {
            None
        }
    }

    /// Reads the metadata of a file from its bytes (or from the last
    /// `MAX_TRAILER_LEN` of them): finds the trailer, then parses it.
    pub fn read_from_file(data: &[u8], password: &[u8]) -> (r: Option<Self>)
        ensures
            r is None <==> spec_read_from_file(data@, password@) is None,
            r matches Some(m) ==> spec_read_from_file(data@, password@) == Some(m@),
    {
        let meta_len = match Self::detect(data) {
            Some(l) => l,
            None => return None,
        };
        let n = data.len();
        let trailer = slice_subrange(data, n - meta_len as usize, n);
        Self::from_bytes(trailer, password)
    }
}

/// The model of a metadata value that `to_bytes` can write and read back:
/// 16-byte salt and nonces, and a name short enough for its 16-bit length
/// field.
pub open spec fn round_trippable(m: MetadataModel) -> bool {
    &&& m.salt.len() == SALT_LEN
    &&& m.nonce.len() == NONCE_LEN
    &&& m.meta_nonce.len() == NONCE_LEN
    &&& encode_utf8(m.orig_name).len() <= u16::MAX
}

/// The length field wraps as `u32` arithmetic does.
proof fn lemma_length_field(l: u64)
    ensures
        vstd::wrapping::u32_specs::wrapping_add(l as u32, 4) == (l + 4) as u32,
{
    assert((l as u32) + 4 > 0xffff_ffff ==> ((l as u32) + 4 - 0x1_0000_0000) as u32 == (l + 4) as u32)
        by (bit_vector);
    assert((l as u32) + 4 <= 0xffff_ffff ==> ((l as u32) + 4) as u32 == (l + 4) as u32) by (bit_vector);
}

proof fn lemma_i64_u64_round_trip(x: i64)
    ensures
        (x as u64) as i64 == x,
{
    assert((x as u64) as i64 == x) by (bit_vector);
}

/// The plaintext body of `m` parses back to its name, size and time.
proof fn lemma_parse_body_round_trip(m: MetadataModel, decrypted: Seq<u8>)
    requires
        round_trippable(m),
        decrypted.len() >= spec_body(m).len(),
        decrypted.subrange(0, spec_body(m).len() as int) == spec_body(m),
    ensures
        spec_parse_body(decrypted) == Some((m.orig_name, m.orig_size, m.orig_mtime)),
{
    lemma_auto_spec_u16_to_from_le_bytes();
    lemma_auto_spec_u32_to_from_le_bytes();
    lemma_auto_spec_u64_to_from_le_bytes();
    lemma_i64_u64_round_trip(m.orig_mtime);
    encode_utf8_valid_utf8(m.orig_name);
    encode_utf8_decode_utf8(m.orig_name);
    let name = encode_utf8(m.orig_name);
    let nb = name.len() as int;
    let fields = spec_body_fields(m);
    let body = spec_body(m);
    let len_field = spec_u16_to_le_bytes(name.len() as u16);
    assert(name.len() as u16 == name.len());
    assert(len_field.len() == 2);
    assert(fields.len() == 18 + nb);
    assert(body.len() == 22 + nb);
    assert(decrypted.subrange(0, 2) =~= body.subrange(0, 2));
    assert(body.subrange(0, 2) =~= len_field);
    assert(spec_u16_from_le_bytes(decrypted.subrange(0, 2)) as int == nb);
    assert(decrypted.subrange(2, 2 + nb) =~= body.subrange(2, 2 + nb));
    assert(body.subrange(2, 2 + nb) =~= name);
    assert(decrypted.subrange(2 + nb, 10 + nb) =~= spec_u64_to_le_bytes(m.orig_size)) by {
        assert(decrypted.subrange(2 + nb, 10 + nb) =~= body.subrange(2 + nb, 10 + nb));
        assert(body.subrange(2 + nb, 10 + nb) =~= spec_u64_to_le_bytes(m.orig_size));
    }
    assert(decrypted.subrange(10 + nb, 18 + nb) =~= spec_u64_to_le_bytes(m.orig_mtime as u64)) by {
        assert(decrypted.subrange(10 + nb, 18 + nb) =~= body.subrange(10 + nb, 18 + nb));
        assert(body.subrange(10 + nb, 18 + nb) =~= spec_u64_to_le_bytes(m.orig_mtime as u64));
    }
    assert(decrypted.subrange(0, 18 + nb) =~= fields) by {
        assert(decrypted.subrange(0, 18 + nb) =~= body.subrange(0, 18 + nb));
        assert(body.subrange(0, 18 + nb) =~= fields);
    }
    assert(decrypted.subrange(18 + nb, 22 + nb) =~= spec_u32_to_le_bytes(crc32_ieee(fields))) by {
        assert(decrypted.subrange(18 + nb, 22 + nb) =~= body.subrange(18 + nb, 22 + nb));
        assert(body.subrange(18 + nb, 22 + nb) =~= spec_u32_to_le_bytes(crc32_ieee(fields)));
    }
}

/// Reading a trailer with the password it was written with gives back the
/// metadata that was written.
pub proof fn lemma_metadata_round_trip(m: MetadataModel, password: Seq<u8>)
    requires
        round_trippable(m),
    ensures
        spec_from_bytes(spec_to_bytes(m, password), password) == Some(m),
{
    lemma_auto_spec_u32_to_from_le_bytes();
    let key = spec_derive_key(password, m.salt);
    let body = spec_body(m);
    let enc = ctr_xor(key, m.meta_nonce, 0, body);
    let head = spec_trailer_head(m, password);
    let data = spec_to_bytes(m, password);
    let len_field = spec_u32_to_le_bytes((head.len() + 4) as u32);
    assert(data.len() == 56 + body.len());
    assert(data.subrange(0, 4) =~= MAGIC@);
    assert(data.subrange(4, 20) =~= m.salt);
    assert(data.subrange(20, 36) =~= m.nonce);
    assert(data.subrange(36, 52) =~= m.meta_nonce);
    let tail = data.subrange(52, data.len() as int);
    assert(tail =~= enc + len_field);
    let decrypted = ctr_xor(key, m.meta_nonce, 0, tail);
    lemma_ctr_xor_piece(key, m.meta_nonce, 0, tail, 0, enc.len() as int);
    assert(tail.subrange(0, enc.len() as int) =~= enc);
    lemma_ctr_xor_involution(key, m.meta_nonce, 0, body);
    lemma_parse_body_round_trip(m, decrypted);
    assert(spec_from_bytes(data, password) =~= Some(m));
}

/// A trailer appended to any content is detected with its own length, and
/// reading the metadata of the whole file gives back what was written.
pub proof fn lemma_detect_appended_trailer(content: Seq<u8>, m: MetadataModel, password: Seq<u8>)
    requires
        round_trippable(m),
        spec_to_bytes(m, password).len() <= MAX_TRAILER_LEN,
    ensures
        spec_detect(content + spec_to_bytes(m, password)) == Some(
            spec_to_bytes(m, password).len() as u32,
        ),
        spec_read_from_file(content + spec_to_bytes(m, password), password) == Some(m),
{
    lemma_auto_spec_u16_to_from_le_bytes();
    lemma_auto_spec_u32_to_from_le_bytes();
    lemma_auto_spec_u64_to_from_le_bytes();
    let t = spec_to_bytes(m, password);
    let head = spec_trailer_head(m, password);
    assert(spec_body(m).len() >= 22);
    let data = content + t;
    let n = data.len() as int;
    let l = t.len() as int;
    assert(l == head.len() + 4);
    assert(l >= MIN_TRAILER_LEN);
    assert((head.len() + 4) as u32 == l);
    assert(data.subrange(n - 4, n) =~= spec_u32_to_le_bytes((head.len() + 4) as u32));
    assert(data.subrange(n - l, n - l + 4) =~= MAGIC@);
    assert(data.subrange(n - l, n) =~= t);
    lemma_metadata_round_trip(m, password);
}

/// Detection looks only at the last `MAX_TRAILER_LEN` bytes of a file, so
/// reading just that tail gives the same answer as reading the whole file.
pub proof fn lemma_detect_tail(data: Seq<u8>)
    ensures
        ({
            let k = if data.len() < MAX_TRAILER_LEN { data.len() as int } else { MAX_TRAILER_LEN as int };
            spec_detect(data.subrange(data.len() - k, data.len() as int)) == spec_detect(data)
        }),
        ({
            let k = if data.len() < MAX_TRAILER_LEN { data.len() as int } else { MAX_TRAILER_LEN as int };
            forall|password: Seq<u8>|
                spec_read_from_file(data.subrange(data.len() - k, data.len() as int), password)
                    == #[trigger] spec_read_from_file(data, password)
        }),
{
    let n = data.len() as int;
    let k = if data.len() < MAX_TRAILER_LEN { n } else { MAX_TRAILER_LEN as int };
    let tail = data.subrange(n - k, n);
    if n <= MAX_TRAILER_LEN {
        assert(tail =~= data);
    } else {
        assert(tail.subrange(k - 4, k) =~= data.subrange(n - 4, n));
        let len = spec_u32_from_le_bytes(data.subrange(n - 4, n)) as int;
        if MIN_TRAILER_LEN <= len <= MAX_TRAILER_LEN {
            assert(tail.subrange(k - len, k - len + 4) =~= data.subrange(n - len, n - len + 4));
            assert(tail.subrange(k - len, k) =~= data.subrange(n - len, n));
        }
    }
}

proof fn lemma_u64_i64_round_trip(x: u64)
    ensures
        ((x as i64) as u64) == x,
{
    assert(((x as i64) as u64) == x) by (bit_vector);
}

/// A trailer that reads with a password is, up to the end of its body,
/// what `to_bytes` writes for the metadata read from it: magic, salt and
/// nonces in the clear, then the body encrypted with the metadata nonce.
pub proof fn lemma_from_bytes_reencodes(data: Seq<u8>, password: Seq<u8>)
    ensures
        spec_from_bytes(data, password) matches Some(m) ==> {
            let l = HEADER_LEN + 22 + encode_utf8(m.orig_name).len();
            &&& data.subrange(0, 4) == MAGIC@
            &&& m.salt == data.subrange(4, 20)
            &&& m.nonce == data.subrange(20, 36)
            &&& m.meta_nonce == data.subrange(36, 52)
            &&& data.len() >= l
            &&& spec_to_bytes(m, password).subrange(0, l as int) == data.subrange(0, l as int)
        },
{
    if let Some(m) = spec_from_bytes(data, password) {
        lemma_auto_spec_u16_to_from_le_bytes();
        lemma_auto_spec_u32_to_from_le_bytes();
        lemma_auto_spec_u64_to_from_le_bytes();
        let key = spec_derive_key(password, m.salt);
        let enc = data.subrange(52, data.len() as int);
        let body = ctr_xor(key, m.meta_nonce, 0, enc);
        let nl = spec_u16_from_le_bytes(body.subrange(0, 2)) as int;
        let name_b = body.subrange(2, 2 + nl);
        decode_utf8_encode_utf8(name_b);
        let name = encode_utf8(m.orig_name);
        assert(name == name_b);
        assert(name.len() as u16 == spec_u16_from_le_bytes(body.subrange(0, 2)));
        assert(spec_u16_to_le_bytes(spec_u16_from_le_bytes(body.subrange(0, 2))) == body.subrange(0, 2));
        let size_b = body.subrange(2 + nl, 10 + nl);
        let time_b = body.subrange(10 + nl, 18 + nl);
        let crc_b = body.subrange(18 + nl, 22 + nl);
        assert(spec_u64_to_le_bytes(spec_u64_from_le_bytes(size_b)) == size_b);
        assert(spec_u64_to_le_bytes(spec_u64_from_le_bytes(time_b)) == time_b);
        lemma_u64_i64_round_trip(spec_u64_from_le_bytes(time_b));
        assert(spec_u32_to_le_bytes(spec_u32_from_le_bytes(crc_b)) == crc_b);
        assert(spec_body_fields(m) =~= body.subrange(0, 18 + nl));
        assert(spec_body(m) =~= body.subrange(0, 22 + nl));
        let lb = 22 + nl;
        lemma_ctr_xor_piece(key, m.meta_nonce, 0, enc, 0, lb);
        lemma_ctr_xor_involution(key, m.meta_nonce, 0, enc.subrange(0, lb));
        assert(ctr_xor(key, m.meta_nonce, 0, spec_body(m)) =~= enc.subrange(0, lb));
        let l = 52 + lb;
        let out = spec_to_bytes(m, password);
        assert(out.subrange(0, l) =~= data.subrange(0, l));
    }
}

} // verus!
