use rand::RngCore;
use vault::crypto::{
    apply_ctr, apply_ctr_from, derive_key, HEAD_SIZE, KEY_LEN, NONCE_LEN, SALT_LEN, TAIL_SIZE,
};

#[test]
fn test_derive_key_deterministic() {
    let password = b"test_password";
    let salt = [0xABu8; SALT_LEN];
    let key1 = derive_key(password, &salt);
    let key2 = derive_key(password, &salt);
    assert_eq!(key1, key2);
}

#[test]
fn test_derive_key_different_passwords() {
    let salt = [0xCDu8; SALT_LEN];
    let key1 = derive_key(b"password1", &salt);
    let key2 = derive_key(b"password2", &salt);
    assert_ne!(key1, key2);
}

#[test]
fn test_ctr_round_trip() {
    let mut rng = rand::thread_rng();
    let mut key = [0u8; KEY_LEN];
    let mut nonce = [0u8; NONCE_LEN];
    rng.fill_bytes(&mut key);
    rng.fill_bytes(&mut nonce);

    let original = b"Hello, World! This is a test of AES-256-CTR encryption.".to_vec();
    let mut data = original.clone();

    apply_ctr(&key, &nonce, &mut data);
    assert_ne!(data, original);

    apply_ctr(&key, &nonce, &mut data);
    assert_eq!(data, original);
}

#[test]
fn test_ctr_from_offset() {
    let mut rng = rand::thread_rng();
    let mut key = [0u8; KEY_LEN];
    let mut nonce = [0u8; NONCE_LEN];
    rng.fill_bytes(&mut key);
    rng.fill_bytes(&mut nonce);

    let mut full_data = vec![0u8; 256 * 1024];
    rand::thread_rng().fill_bytes(&mut full_data);
    let original = full_data.clone();

    let mut method1 = full_data.clone();
    apply_ctr(&key, &nonce, &mut method1);

    let mut method2 = full_data.clone();
    let tail_start = full_data.len() - TAIL_SIZE;
    apply_ctr(&key, &nonce, &mut method2[..HEAD_SIZE]);
    apply_ctr_from(&key, &nonce, tail_start as u64, &mut method2[tail_start..]);

    assert_eq!(method1[..HEAD_SIZE], method2[..HEAD_SIZE]);
    assert_eq!(method1[tail_start..], method2[tail_start..]);

    apply_ctr(&key, &nonce, &mut method2[..HEAD_SIZE]);
    apply_ctr_from(&key, &nonce, tail_start as u64, &mut method2[tail_start..]);
    assert_eq!(method2[..HEAD_SIZE], original[..HEAD_SIZE]);
    assert_eq!(method2[tail_start..], original[tail_start..]);
}

#[test]
fn test_ctr_different_nonces() {
    let key = [0x42u8; KEY_LEN];
    let mut nonce1 = [0u8; NONCE_LEN];
    let mut nonce2 = [0u8; NONCE_LEN];
    nonce1[0] = 1;
    nonce2[0] = 2;

    let data = b"same input data";
    let mut enc1 = data.to_vec();
    let mut enc2 = data.to_vec();

    apply_ctr(&key, &nonce1, &mut enc1);
    apply_ctr(&key, &nonce2, &mut enc2);

    assert_ne!(enc1, enc2);
}

#[test]
fn derive_key_fills_the_whole_key() {
    let key = derive_key(b"password", &[0u8; SALT_LEN]);
    assert_ne!(key, [0u8; KEY_LEN]);
    assert_eq!(key, derive_key(b"password", &[0u8; SALT_LEN]));
    assert_ne!(key, derive_key(b"password", &[1u8; SALT_LEN]));
}

#[test]
fn ctr_piece_at_unaligned_offset_matches_whole_buffer() {
    let key = [7u8; KEY_LEN];
    let nonce = [9u8; NONCE_LEN];
    let data: Vec<u8> = (0..100u32).map(|i| (i * 3) as u8).collect();
    let mut whole = data.clone();
    apply_ctr(&key, &nonce, &mut whole);
    let mut piece = data[37..81].to_vec();
    apply_ctr_from(&key, &nonce, 37, &mut piece);
    assert_eq!(&whole[37..81], &piece[..]);
    apply_ctr_from(&key, &nonce, 37, &mut piece);
    assert_eq!(&piece[..], &data[37..81]);
}

#[test]
fn ctr_on_empty_data_is_a_no_op() {
    let mut empty: Vec<u8> = Vec::new();
    apply_ctr(&[1u8; KEY_LEN], &[2u8; NONCE_LEN], &mut empty);
    assert!(empty.is_empty());
}

#[test]
fn ctr_keystream_of_zero_key_and_nonce_starts_with_aes_of_zero_block() {
    // AES-256 of the all-zero block under the all-zero key.
    let expected: [u8; 16] = [
        0xdc, 0x95, 0xc0, 0x78, 0xa2, 0x40, 0x89, 0x89, 0xad, 0x48, 0xa2, 0x14, 0x92, 0x84, 0x20, 0x87,
    ];
    let mut data = [0u8; 16];
    apply_ctr(&[0u8; KEY_LEN], &[0u8; NONCE_LEN], &mut data);
    assert_eq!(data, expected);
}
