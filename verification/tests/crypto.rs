use openportal::crypto::{CryptoError, EncryptedData, Key};

#[test]
fn generated_keys_are_32_bytes_and_differ() {
    let a = Key::generate();
    let b = Key::generate();
    assert_eq!(a.data.len(), 32);
    assert_eq!(b.data.len(), 32);
    assert!(a != b);
    assert!(!a.is_null());
    assert!(Key::null().is_null());
}

#[test]
fn sealed_text_opens_under_the_same_key() {
    let key = Key::generate();
    let sealed = key.encrypt("Hello, World!").unwrap();
    assert_eq!(sealed.version, 1);
    // the JSON text is 15 bytes long; nonce and tag add 40
    assert_eq!(sealed.data.len(), 15 + 40);
    assert_eq!(key.decrypt(&sealed), Ok("Hello, World!".to_string()));
    assert_eq!(key.decrypt_json(&sealed), Ok("\"Hello, World!\"".to_string()));
    // sealing twice gives two different runs of bytes
    let again = key.encrypt("Hello, World!").unwrap();
    assert_ne!(sealed.data, again.data);
    assert_eq!(key.decrypt(&again), Ok("Hello, World!".to_string()));
}

#[test]
fn sealed_json_opens_to_the_same_json() {
    let key = Key::generate();
    let json = "{\"name\":\"gr\u{00fc}\u{00df}e\",\"n\":[1,2,3]}";
    let sealed = key.encrypt_json(json).unwrap();
    assert_eq!(sealed.data.len(), json.len() + 40);
    assert_eq!(key.decrypt_json(&sealed), Ok(json.to_string()));
    assert!(matches!(key.decrypt(&sealed), Err(CryptoError::Json(_))));
}

#[test]
fn sealed_text_does_not_open_under_another_key() {
    let key = Key::generate();
    let other = Key::generate();
    let sealed = key.encrypt("secret").unwrap();
    assert!(matches!(other.decrypt(&sealed), Err(CryptoError::Aead(_))));
    assert!(matches!(Key::null().decrypt(&sealed), Err(CryptoError::Aead(_))));
    let mut tampered = sealed.clone();
    tampered.data[30] ^= 1;
    assert!(matches!(key.decrypt(&tampered), Err(CryptoError::Aead(_))));
    let short = EncryptedData { data: vec![0; 40], version: 1 };
    assert!(matches!(key.decrypt(&short), Err(CryptoError::Aead(_))));
}

#[test]
fn sealed_data_is_shown_without_its_bytes() {
    let sealed = EncryptedData { data: vec![7; 55], version: 1 };
    assert_eq!(
        sealed.to_string(),
        "EncryptedData { data: [REDACTED] length 55 bytes, version: 1 }"
    );
}

#[test]
fn only_version_one_is_read() {
    let key = Key::generate();
    let mut sealed = key.encrypt("secret").unwrap();
    sealed.version = 2;
    assert!(matches!(key.decrypt(&sealed), Err(CryptoError::UnsupportedVersion(_))));
    sealed.version = 0;
    assert!(matches!(key.decrypt_json(&sealed), Err(CryptoError::UnsupportedVersion(_))));
    sealed.version = 1;
    assert_eq!(key.decrypt(&sealed), Ok("secret".to_string()));
}

#[test]
fn bad_keys_and_empty_text_are_refused() {
    assert!(matches!(Key::null().encrypt("x"), Err(CryptoError::BadKey(_))));
    let short = Key { data: vec![1; 31] };
    assert!(matches!(short.encrypt_json("1"), Err(CryptoError::BadKey(_))));
    let key = Key::generate();
    assert!(matches!(key.encrypt_json(""), Err(CryptoError::Aead(_))));
    // the JSON text of the empty string is not empty
    let sealed = key.encrypt("").unwrap();
    assert_eq!(sealed.data.len(), 2 + 40);
    assert_eq!(key.decrypt(&sealed), Ok(String::new()));
}

#[test]
fn what_is_sealed_must_be_text() {
    let key = Key::generate();
    // seal bytes that are no UTF-8 with the same cipher, by hand
    let secret = orion::aead::SecretKey::from_slice(&key.data).unwrap();
    let data = orion::aead::seal(&secret, &[0xff, 0xfe, 0xfd]).unwrap();
    let sealed = EncryptedData { data, version: 1 };
    assert!(matches!(key.decrypt_json(&sealed), Err(CryptoError::Utf8(_))));
}

#[test]
fn password_keys_are_the_same_for_the_same_password() {
    let a = Key::from_password("correct horse battery staple").unwrap();
    let b = Key::from_password("correct horse battery staple").unwrap();
    let c = Key::from_password("correct horse battery stable").unwrap();
    assert_eq!(a.data.len(), 32);
    assert!(a == b);
    assert!(a != c);
    assert!(matches!(Key::from_password(""), Err(CryptoError::BadKey(_))));
    let sealed = a.encrypt("x").unwrap();
    assert_eq!(b.decrypt(&sealed), Ok("x".to_string()));
}
