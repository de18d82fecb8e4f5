use vault::crypto::{apply_ctr, derive_key};
use vault::metadata::{FileMetadata, MAGIC, MAX_TRAILER_LEN, MIN_TRAILER_LEN};

#[test]
fn test_metadata_round_trip() {
    let password = b"test_password";
    let meta = FileMetadata::new("测试文件.txt".to_string(), 1024 * 1024, 1700000000);
    let bytes = meta.to_bytes(password);
    let parsed = FileMetadata::from_bytes(&bytes, password).unwrap();

    assert_eq!(parsed.orig_name, "测试文件.txt");
    assert_eq!(parsed.orig_size, 1024 * 1024);
    assert_eq!(parsed.orig_mtime, 1700000000);
    assert_eq!(parsed.salt, meta.salt);
    assert_eq!(parsed.nonce, meta.nonce);
    assert_eq!(parsed.meta_nonce, meta.meta_nonce);
}

#[test]
fn test_metadata_wrong_password() {
    let password = b"correct_password";
    let meta = FileMetadata::new("file.pdf".to_string(), 5000, 1700000000);
    let bytes = meta.to_bytes(password);
    let result = FileMetadata::from_bytes(&bytes, b"wrong_password");
    assert!(result.is_none());
}

#[test]
fn test_metadata_detect_valid() {
    let password = b"test";
    let meta = FileMetadata::new("test.txt".to_string(), 100, 1700000000);
    let bytes = meta.to_bytes(password);
    let padding_len = 1000 - bytes.len();
    let mut file_data = Vec::with_capacity(1000);
    file_data.extend_from_slice(&vec![0u8; padding_len]);
    file_data.extend_from_slice(&bytes);
    let detected_len = FileMetadata::detect(&file_data).unwrap();
    assert_eq!(detected_len as usize, bytes.len());
}

#[test]
fn test_metadata_detect_invalid() {
    let file = vec![0u8; 100];
    assert!(FileMetadata::detect(&file).is_none());
}

#[test]
fn test_metadata_long_filename() {
    let password = b"test";
    let long_name = "很长的文件名".repeat(20);
    let meta = FileMetadata::new(long_name.clone(), 999, 1700000000);
    let bytes = meta.to_bytes(password);
    let parsed = FileMetadata::from_bytes(&bytes, password).unwrap();
    assert_eq!(parsed.orig_name, long_name);
}

fn fixed_metadata(name: &str, size: u64, mtime: i64) -> FileMetadata {
    FileMetadata {
        salt: [1u8; 16],
        nonce: [2u8; 16],
        meta_nonce: [3u8; 16],
        orig_name: name.to_string(),
        orig_size: size,
        orig_mtime: mtime,
    }
}

#[test]
fn trailer_layout() {
    let meta = fixed_metadata("a.txt", 7, -5);
    let bytes = meta.to_bytes(b"pw");
    assert_eq!(bytes.len(), 78 + 5);
    assert_eq!(&bytes[0..4], &MAGIC);
    assert_eq!(&bytes[4..20], &[1u8; 16]);
    assert_eq!(&bytes[20..36], &[2u8; 16]);
    assert_eq!(&bytes[36..52], &[3u8; 16]);
    let n = bytes.len();
    assert_eq!(u32::from_le_bytes(bytes[n - 4..].try_into().unwrap()) as usize, n);
    // The body is encrypted: the name does not appear in clear.
    assert_ne!(&bytes[54..59], b"a.txt");
    assert_eq!(fixed_metadata("a.txt", 7, -5).to_bytes(b"pw"), bytes);
}

#[test]
fn negative_and_extreme_times_round_trip() {
    for (size, mtime) in [(0u64, i64::MIN), (u64::MAX, i64::MAX), (1, -1)] {
        let meta = fixed_metadata("x", size, mtime);
        let parsed = FileMetadata::from_bytes(&meta.to_bytes(b"k"), b"k").unwrap();
        assert_eq!(parsed.orig_size, size);
        assert_eq!(parsed.orig_mtime, mtime);
        assert_eq!(parsed.orig_name, "x");
    }
}

#[test]
fn empty_name_gives_the_shortest_trailer() {
    let bytes = fixed_metadata("", 0, 0).to_bytes(b"k");
    assert_eq!(bytes.len() as u32, MIN_TRAILER_LEN);
    assert_eq!(FileMetadata::detect(&bytes), Some(MIN_TRAILER_LEN));
    assert_eq!(FileMetadata::from_bytes(&bytes, b"k").unwrap().orig_name, "");
}

#[test]
fn tampered_trailer_is_rejected_by_the_checksum() {
    let bytes = fixed_metadata("report.pdf", 12345, 1700000000).to_bytes(b"k");
    // The length field, a name byte, a size byte, a time byte, the checksum.
    for i in [52usize, 56, 64, 72, 79] {
        let mut bad = bytes.clone();
        bad[i] ^= 0x01;
        assert!(FileMetadata::from_bytes(&bad, b"k").is_none(), "byte {} flipped", i);
    }
}

#[test]
fn from_bytes_rejects_short_or_foreign_data() {
    assert!(FileMetadata::from_bytes(&[], b"k").is_none());
    assert!(FileMetadata::from_bytes(&[0x56, 0x41, 0x4C, 0x54], b"k").is_none());
    let mut bytes = fixed_metadata("a", 1, 1).to_bytes(b"k");
    bytes[0] = b'X';
    assert!(FileMetadata::from_bytes(&bytes, b"k").is_none());
    assert!(FileMetadata::from_bytes(&vec![0u8; 55], b"k").is_none());
}

#[test]
fn detect_bounds() {
    // Too short to hold a length.
    assert!(FileMetadata::detect(&[1, 2, 3]).is_none());
    // A length pointing before the start of the data.
    let mut data = vec![0u8; 50];
    data.extend_from_slice(&100u32.to_le_bytes());
    assert!(FileMetadata::detect(&data).is_none());
    // A length above the accepted maximum.
    let mut data = vec![0u8; 20000];
    data.extend_from_slice(&(MAX_TRAILER_LEN + 1).to_le_bytes());
    assert!(FileMetadata::detect(&data).is_none());
    // A length in range but no magic there.
    let mut data = vec![0u8; 200];
    data.extend_from_slice(&100u32.to_le_bytes());
    assert!(FileMetadata::detect(&data).is_none());
    // The magic where the length points.
    let mut data = vec![0u8; 200];
    data[104..108].copy_from_slice(&MAGIC);
    data.extend_from_slice(&100u32.to_le_bytes());
    assert_eq!(FileMetadata::detect(&data), Some(100));
}

#[test]
fn read_from_file_finds_the_trailer_in_a_file_and_in_its_tail() {
    let meta = fixed_metadata("photo.jpg", 30000, 42);
    let trailer = meta.to_bytes(b"pw");
    let mut file = vec![0xAAu8; 30000];
    file.extend_from_slice(&trailer);
    let whole = FileMetadata::read_from_file(&file, b"pw").unwrap();
    let tail = FileMetadata::read_from_file(&file[file.len() - MAX_TRAILER_LEN as usize..], b"pw").unwrap();
    assert_eq!(whole.orig_name, "photo.jpg");
    assert_eq!(tail.orig_name, "photo.jpg");
    assert_eq!(whole.orig_size, 30000);
    assert!(FileMetadata::read_from_file(&file, b"other").is_none());
    assert!(FileMetadata::read_from_file(&file[..30000], b"pw").is_none());
}

#[test]
fn new_metadata_has_fresh_random_salts() {
    let a = FileMetadata::new("f".to_string(), 1, 2);
    let b = FileMetadata::new("f".to_string(), 1, 2);
    assert_ne!(a.salt, b.salt);
    assert_ne!(a.nonce, a.meta_nonce);
    assert_eq!(a.orig_name, "f");
    assert_eq!(a.orig_size, 1);
    assert_eq!(a.orig_mtime, 2);
}

/// CRC-32 computed bit by bit: all-ones start, reflected polynomial
/// 0xEDB88320, inverted result.
fn crc32_bitwise(data: &[u8]) -> u32 {
    let mut c: u32 = 0xFFFF_FFFF;
    for &b in data {
        c ^= b as u32;
        for _ in 0..8 {
            c = if c & 1 == 1 { (c >> 1) ^ 0xEDB8_8320 } else { c >> 1 };
        }
    }
    c ^ 0xFFFF_FFFF
}

#[test]
fn trailer_checksum_is_the_crc32_of_the_fields() {
    assert_eq!(crc32_bitwise(b"123456789"), 0xCBF4_3926);
    let meta = FileMetadata::new("数据.bin".to_string(), 77, -5);
    let bytes = meta.to_bytes(b"pw");
    let key = derive_key(b"pw", &meta.salt);
    let mut body = bytes[52..bytes.len() - 4].to_vec();
    apply_ctr(&key, &meta.meta_nonce, &mut body);
    let fields = &body[..body.len() - 4];
    let stored = u32::from_le_bytes(body[body.len() - 4..].try_into().unwrap());
    assert_eq!(stored, crc32_bitwise(fields));
}

#[test]
fn a_parsed_trailer_encodes_back_to_the_same_bytes() {
    let meta = FileMetadata::new("报告.pdf".to_string(), 123, 1700000000);
    let bytes = meta.to_bytes(b"pw");
    let parsed = FileMetadata::from_bytes(&bytes, b"pw").unwrap();
    assert_eq!(parsed.to_bytes(b"pw"), bytes);
}
