use vault::name_encrypt::{
    decrypt_dir_name, decrypt_file_name, encrypt_dir_name, encrypt_file_name,
    would_exceed_name_limit, FILE_EXT,
};

#[test]
fn test_file_name_round_trip() {
    let password = b"test_password";
    let original = "报告.pdf";
    let encrypted = encrypt_file_name(password, original);
    assert!(encrypted.ends_with(FILE_EXT));
    assert_ne!(encrypted, original);
    let decrypted = decrypt_file_name(password, &encrypted).unwrap();
    assert_eq!(decrypted, original);
}

#[test]
fn test_dir_name_round_trip() {
    let password = b"test_password";
    let original = "工作文档";
    let encrypted = encrypt_dir_name(password, original);
    assert!(!encrypted.contains("."));
    let decrypted = decrypt_dir_name(password, &encrypted).unwrap();
    assert_eq!(decrypted, original);
}

#[test]
fn test_chinese_filename() {
    let password = b"password";
    let name = "04-河南豫剧《三请樊梨花》02 开封市豫剧团演出-480P 清晰-AVC.mp4";
    let encrypted = encrypt_file_name(password, name);
    let decrypted = decrypt_file_name(password, &encrypted).unwrap();
    assert_eq!(decrypted, name);
}

#[test]
fn test_long_english_filename() {
    let password = b"password";
    let name = "White.Snake.2019.WEB-DL.1080P&2160P.H264.AAC-FGTR[BTBus].mkv";
    let encrypted = encrypt_file_name(password, name);
    let decrypted = decrypt_file_name(password, &encrypted).unwrap();
    assert_eq!(decrypted, name);
}

#[test]
fn test_wrong_password_returns_none() {
    let encrypted = encrypt_file_name(b"correct", "secret.txt");
    assert!(decrypt_file_name(b"wrong", &encrypted).is_none());
}

#[test]
fn test_deterministic() {
    let password = b"test";
    let name = "file.txt";
    let enc1 = encrypt_file_name(password, name);
    let enc2 = encrypt_file_name(password, name);
    assert_eq!(enc1, enc2);
}

#[test]
fn test_would_exceed_name_limit_short() {
    assert!(!would_exceed_name_limit("short.txt", true));
}

#[test]
fn test_would_exceed_name_limit_long() {
    let very_long = "x".repeat(200);
    assert!(would_exceed_name_limit(&very_long, true));
}

#[test]
fn name_limit_boundaries() {
    assert!(!would_exceed_name_limit(&"x".repeat(118), true));
    assert!(would_exceed_name_limit(&"x".repeat(119), true));
    assert!(!would_exceed_name_limit(&"x".repeat(120), false));
    assert!(would_exceed_name_limit(&"x".repeat(121), false));
    // Three UTF-8 bytes per character: 40 characters are 120 bytes.
    assert!(!would_exceed_name_limit(&"文".repeat(40), false));
    assert!(would_exceed_name_limit(&"文".repeat(40), true));
    assert!(!would_exceed_name_limit("", true));
}

#[test]
fn encrypted_names_are_lowercase_hex_of_twice_the_byte_length() {
    let enc = encrypt_dir_name(b"pw", "abc");
    assert_eq!(enc.len(), 6);
    assert!(enc.chars().all(|c| c.is_ascii_digit() || ('a'..='f').contains(&c)));
    let enc_file = encrypt_file_name(b"pw", "abc");
    assert_eq!(enc_file, format!("{}.dat", enc));
    assert_ne!(enc, "616263");
}

#[test]
fn empty_name_round_trips() {
    assert_eq!(encrypt_dir_name(b"pw", ""), "");
    assert_eq!(encrypt_file_name(b"pw", ""), ".dat");
    assert_eq!(decrypt_file_name(b"pw", ".dat").unwrap(), "");
    assert_eq!(decrypt_dir_name(b"pw", "").unwrap(), "");
}

#[test]
fn decrypt_rejects_names_that_are_not_encrypted() {
    assert!(decrypt_file_name(b"pw", "notes.txt").is_none());
    assert!(decrypt_file_name(b"pw", "zz.dat").is_none());
    assert!(decrypt_file_name(b"pw", "abc.dat").is_none());
    assert!(decrypt_dir_name(b"pw", "xyz").is_none());
    assert!(decrypt_dir_name(b"pw", "a").is_none());
}

#[test]
fn decrypt_accepts_uppercase_hex() {
    let enc = encrypt_dir_name(b"pw", "Documents");
    assert_eq!(decrypt_dir_name(b"pw", &enc.to_uppercase()).unwrap(), "Documents");
}

#[test]
fn name_limit_agrees_with_the_encrypted_length() {
    for name in ["x".repeat(118), "x".repeat(119), "文".repeat(39), "文".repeat(40)] {
        let file = encrypt_file_name(b"pw", &name);
        let dir = encrypt_dir_name(b"pw", &name);
        assert_eq!(would_exceed_name_limit(&name, true), file.len() > 240);
        assert_eq!(would_exceed_name_limit(&name, false), dir.len() > 240);
    }
}
