use clipman::crypto::{Crypto, CryptoError, NONCE_LEN, TAG_LEN};
use clipman::digest::{content_hash, to_hex};
use clipman::paths::{get_data_directory, key_from_bytes};

#[test]
fn test_encrypt_decrypt() {
    let key = [0u8; 32];
    let crypto = Crypto::new(&key);

    let data = b"Hello, ClipMan!";
    let encrypted = crypto.encrypt(data).unwrap();
    let decrypted = crypto.decrypt(&encrypted).unwrap();

    assert_eq!(data.to_vec(), decrypted);
}

#[test]
fn empty_payload_round_trips() {
    let crypto = Crypto::new(&[7u8; 32]);
    let sealed = crypto.encrypt(b"").unwrap();
    assert_eq!(sealed.len(), NONCE_LEN + TAG_LEN);
    assert_eq!(crypto.decrypt(&sealed).unwrap(), Vec::<u8>::new());
}

#[test]
fn sealed_layout_and_fresh_nonces() {
    let crypto = Crypto::new(&[1u8; 32]);
    let a = crypto.encrypt(b"same text").unwrap();
    let b = crypto.encrypt(b"same text").unwrap();
    assert_eq!(a.len(), NONCE_LEN + 9 + TAG_LEN);
    assert_ne!(a, b);
    assert_ne!(&a[NONCE_LEN..NONCE_LEN + 9], b"same text");
}

#[test]
fn any_flipped_byte_is_rejected() {
    let crypto = Crypto::new(&[3u8; 32]);
    let sealed = crypto.encrypt(b"tamper evident").unwrap();
    for i in 0..sealed.len() {
        let mut bad = sealed.clone();
        bad[i] ^= 0x01;
        assert_eq!(crypto.decrypt(&bad), Err(CryptoError::AuthenticationFailure));
    }
}

#[test]
fn short_input_is_rejected() {
    let crypto = Crypto::new(&[3u8; 32]);
    assert_eq!(crypto.decrypt(&[0u8; 11]), Err(CryptoError::AuthenticationFailure));
    assert_eq!(crypto.decrypt(&[0u8; 20]), Err(CryptoError::AuthenticationFailure));
    assert_eq!(crypto.decrypt(&[]), Err(CryptoError::AuthenticationFailure));
}

#[test]
fn other_key_is_rejected() {
    let sealed = Crypto::new(&[3u8; 32]).encrypt(b"secret").unwrap();
    assert_eq!(Crypto::new(&[4u8; 32]).decrypt(&sealed), Err(CryptoError::AuthenticationFailure));
}

#[test]
fn content_hash_is_hex_sha256() {
    assert_eq!(
        content_hash(&b"abc".to_vec()),
        "ba7816bf8f01cfea414140de5dae2223b00361a396177a9cb410ff61f20015ad"
    );
    assert_eq!(
        content_hash(&Vec::new()),
        "e3b0c44298fc1c149afbf4c8996fb92427ae41e4649b934ca495991b7852b855"
    );
    assert_eq!(to_hex(&vec![0x00, 0x0f, 0xa0, 0xff]), "000fa0ff");
}

#[test]
fn data_directory_prefers_custom_path() {
    assert_eq!(get_data_directory("/data/app".to_string(), None), "/data/app");
    assert_eq!(get_data_directory("/data/app".to_string(), Some("/mnt/clips".to_string())), "/mnt/clips");
}

#[test]
fn key_material_is_exactly_32_bytes() {
    assert_eq!(key_from_bytes(&vec![9u8; 32]), Some([9u8; 32]));
    assert_eq!(key_from_bytes(&vec![9u8; 31]), None);
    assert_eq!(key_from_bytes(&vec![9u8; 33]), None);
}
