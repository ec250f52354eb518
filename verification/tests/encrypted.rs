use rcman::credentials::encrypted::{
    base64_encode, check_salt, decode_salt, decrypt_secret, derive_key, encrypt_secret, generate_key, generate_salt,
};
use rcman::Error;

#[test]
fn test_derive_key() {
    let salt = generate_salt();

    // Same password + same salt = same key
    let key1 = derive_key("password123", &salt).unwrap();
    let key2 = derive_key("password123", &salt).unwrap();
    assert_eq!(key1, key2);

    // Different password = different key
    let key3 = derive_key("different", &salt).unwrap();
    assert_ne!(key1, key3);

    // Different salt = different key (even with same password)
    let salt2 = generate_salt();
    let key4 = derive_key("password123", &salt2).unwrap();
    assert_ne!(key1, key4);
}

#[test]
fn secrets_round_trip() {
    let key = generate_key();
    let (nonce, sealed) = encrypt_secret(&key, "secret123").unwrap();
    assert_eq!(decrypt_secret(&key, &nonce, &sealed).unwrap(), "secret123");
    let (nonce2, sealed2) = encrypt_secret(&key, "hunter2 ünïcödé").unwrap();
    assert_eq!(decrypt_secret(&key, &nonce2, &sealed2).unwrap(), "hunter2 ünïcödé");
}

#[test]
fn wrong_key_is_refused() {
    let key1 = generate_key();
    let key2 = generate_key();
    let (nonce, sealed) = encrypt_secret(&key1, "value").unwrap();
    assert_eq!(
        decrypt_secret(&key2, &nonce, &sealed),
        Err(Error::Credential("decryption: Decryption failed (wrong key?)".to_string()))
    );
    assert!(matches!(decrypt_secret(&key1, "not base64!", &sealed), Err(Error::Credential(_))));
    assert_eq!(
        decrypt_secret(&key1, "AAAA", &sealed),
        Err(Error::Credential("nonce: Invalid nonce: expected 12 bytes".to_string()))
    );
}

#[test]
fn base64_encoding() {
    assert_eq!(base64_encode(b""), "");
    assert_eq!(base64_encode(b"f"), "Zg==");
    assert_eq!(base64_encode(b"fo"), "Zm8=");
    assert_eq!(base64_encode(b"foo"), "Zm9v");
    assert_eq!(base64_encode(b"foobar"), "Zm9vYmFy");
    assert_eq!(base64_encode(b"hello world~"), "aGVsbG8gd29ybGR+");
    assert_eq!(base64_encode(&[0xff, 0xfe, 0xfd]), "//79");
}

#[test]
fn salts() {
    let salt = generate_salt();
    let text = base64_encode(&salt);
    assert_eq!(decode_salt(&text).unwrap(), salt);
    assert_eq!(
        check_salt(vec![1, 2, 3]),
        Err(Error::Credential("salt: Invalid salt length: expected 16, got 3".to_string()))
    );
    assert!(matches!(decode_salt("%%%"), Err(Error::Credential(_))));
}

#[test]
fn encryption_succeeds_for_ordinary_text() {
    let key = [7u8; 32];
    for text in ["", "secret", "ünïcödé ✓"] {
        let (n, c) = encrypt_secret(&key, text).unwrap();
        assert_eq!(decrypt_secret(&key, &n, &c).unwrap(), text);
    }
}
