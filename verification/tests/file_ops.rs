use vault::crypto::{HEAD_SIZE, TAIL_SIZE};
use vault::error::VaultError;
use vault::file_ops::{apply_spans, encrypt_spans, plan_decrypt_file, plan_encrypt_file, Span};
use vault::metadata::{FileMetadata, MAX_TRAILER_LEN};
use vault::name_encrypt::decrypt_file_name;

/// What encrypting a file does to its bytes, done in memory.
fn encrypt_image(content: &[u8], name: &str, password: &[u8]) -> (Vec<u8>, String) {
    let plan = plan_encrypt_file(name.to_string(), content.len() as u64, 1700000000, password);
    let mut data = content.to_vec();
    apply_spans(&mut data, &plan.spans, &plan.key, &plan.metadata.nonce);
    data.extend_from_slice(&plan.trailer);
    (data, plan.enc_name)
}

/// What decrypting a file does to its bytes, done in memory.
fn decrypt_image(data: &[u8], password: &[u8]) -> Result<(Vec<u8>, String, i64), VaultError> {
    let tail_len = data.len().min(MAX_TRAILER_LEN as usize);
    let plan = plan_decrypt_file("file", &data[data.len() - tail_len..], data.len() as u64, password)?;
    let mut out = data.to_vec();
    apply_spans(&mut out, &plan.spans, &plan.key, &plan.metadata.nonce);
    out.resize(plan.final_len as usize, 0);
    Ok((out, plan.metadata.orig_name, plan.metadata.orig_mtime))
}

#[test]
fn test_encrypt_decrypt_large_file() {
    let original: Vec<u8> = (0..256 * 1024).map(|i| (i % 256) as u8).collect();
    let (enc, enc_name) = encrypt_image(&original, "large_test.bin", b"password");
    assert!(enc.len() > original.len());
    assert_ne!(&enc[..256], &original[..256]);
    assert_ne!(&enc[original.len() - 256..original.len()], &original[original.len() - 256..]);
    assert_eq!(&enc[HEAD_SIZE..original.len() - TAIL_SIZE], &original[HEAD_SIZE..original.len() - TAIL_SIZE]);
    assert!(enc_name.ends_with(".dat"));
    assert_eq!(decrypt_file_name(b"password", &enc_name).unwrap(), "large_test.bin");
    let (restored, name, mtime) = decrypt_image(&enc, b"password").unwrap();
    assert_eq!(restored, original);
    assert_eq!(name, "large_test.bin");
    assert_eq!(mtime, 1700000000);
}

#[test]
fn test_encrypt_decrypt_small_file() {
    let (enc, _) = encrypt_image(b"Hello, World!", "small.txt", b"password");
    assert_ne!(&enc[..13], b"Hello, World!");
    let (restored, name, _) = decrypt_image(&enc, b"password").unwrap();
    assert_eq!(restored, b"Hello, World!");
    assert_eq!(name, "small.txt");
}

#[test]
fn test_encrypt_decrypt_empty_file() {
    let (enc, _) = encrypt_image(b"", "empty.txt", b"password");
    let (restored, _, _) = decrypt_image(&enc, b"password").unwrap();
    assert!(restored.is_empty());
}

#[test]
fn threshold_sized_file_is_fully_encrypted() {
    let original = vec![0x11u8; 128 * 1024];
    let (enc, _) = encrypt_image(&original, "t.bin", b"pw");
    assert_ne!(&enc[HEAD_SIZE..HEAD_SIZE + 64], &original[HEAD_SIZE..HEAD_SIZE + 64]);
    assert_eq!(decrypt_image(&enc, b"pw").unwrap().0, original);
}

#[test]
fn test_decrypt_wrong_password() {
    let (enc, _) = encrypt_image(b"secret data", "test.txt", b"correct");
    assert!(matches!(decrypt_image(&enc, b"wrong"), Err(VaultError::InvalidPassword)));
}

#[test]
fn plain_file_is_refused() {
    assert!(matches!(decrypt_image(b"just some text", b"pw"), Err(VaultError::InvalidPassword)));
}

#[test]
fn spans_by_size() {
    assert_eq!(encrypt_spans(0), vec![Span { offset: 0, len: 0 }]);
    assert_eq!(encrypt_spans(131072), vec![Span { offset: 0, len: 131072 }]);
    assert_eq!(
        encrypt_spans(131073),
        vec![Span { offset: 0, len: 65536 }, Span { offset: 131073 - 65536, len: 65536 }]
    );
}

#[test]
fn truncated_large_file_has_corrupted_metadata() {
    let original = vec![5u8; 200 * 1024];
    let (enc, _) = encrypt_image(&original, "big", b"pw");
    let trailer_len = FileMetadata::detect(&enc).unwrap() as usize;
    let mut cut = enc[..100 * 1024].to_vec();
    cut.extend_from_slice(&enc[enc.len() - trailer_len..]);
    let tail_len = cut.len().min(MAX_TRAILER_LEN as usize);
    match plan_decrypt_file("big", &cut[cut.len() - tail_len..], cut.len() as u64, b"pw") {
        Err(VaultError::CorruptedMetadata(p)) => assert_eq!(p, "big"),
        _ => panic!("a trailer claiming more content than the file holds is corrupt"),
    }
    assert!(matches!(decrypt_image(&cut, b"pw"), Err(VaultError::CorruptedMetadata(_))));
}

#[test]
fn test_is_encrypted() {
    assert!(FileMetadata::detect(b"content").is_none());
    let (enc, _) = encrypt_image(b"content", "test.txt", b"password");
    assert!(FileMetadata::detect(&enc).is_some());
}
