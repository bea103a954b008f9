use aes_gcm::aead::Aead;
use aes_gcm::{Aes256Gcm, KeyInit, Nonce};
use base64::engine::general_purpose::STANDARD;
use base64::Engine;
use soulbeet::crypto::{decrypt, derive_key, encrypt, CryptoError};
use soulbeet::profile::to_hex_lower;

#[test]
fn derived_key_is_sha256_of_the_secret() {
    let key = derive_key("secret");
    assert_eq!(
        to_hex_lower(&key),
        "2bb80d537b1da3e38bd30361aa855686bde0eacd7162fef6a25fe97bf527a25b"
    );
}

#[test]
fn encrypt_then_decrypt_gives_the_plaintext_back() {
    for plaintext in ["hunter2", "", "päss wörd ✓", "a much longer secret value 0123456789"] {
        let sealed = encrypt("server-secret", plaintext).unwrap();
        assert_eq!(decrypt("server-secret", &sealed).unwrap(), plaintext);
    }
}

#[test]
fn sealed_text_holds_nonce_ciphertext_and_tag() {
    let sealed = encrypt("k", "abc").unwrap();
    let raw = STANDARD.decode(sealed.as_bytes()).unwrap();
    assert_eq!(raw.len(), 12 + 3 + 16);
    assert_ne!(&raw[12..15], b"abc");
}

#[test]
fn two_encryptions_differ_but_both_decrypt() {
    let a = encrypt("k", "same").unwrap();
    let b = encrypt("k", "same").unwrap();
    assert_ne!(a, b);
    assert_eq!(decrypt("k", &a).unwrap(), "same");
    assert_eq!(decrypt("k", &b).unwrap(), "same");
}

#[test]
fn decrypt_with_another_key_fails_to_authenticate() {
    let sealed = encrypt("right", "value").unwrap();
    match decrypt("wrong", &sealed) {
        Err(CryptoError::Decrypt(_)) => {}
        _ => panic!("expected a decryption failure"),
    }
}

#[test]
fn decrypt_rejects_bad_base64() {
    match decrypt("k", "not base64!!") {
        Err(CryptoError::Decode(_)) => {}
        _ => panic!("expected a decode failure"),
    }
}

#[test]
fn decrypt_rejects_short_input() {
    match decrypt("k", "AAAAAAA=") {
        Err(e) => {
            assert!(matches!(e, CryptoError::TooShort));
            assert_eq!(e.message(), "Ciphertext too short");
        }
        Ok(_) => panic!("expected a length failure"),
    }
}

#[test]
fn decrypt_rejects_non_utf8_plaintext() {
    let key = derive_key("k");
    let cipher = Aes256Gcm::new_from_slice(&key).unwrap();
    let nonce = [7u8; 12];
    let ct = cipher
        .encrypt(Nonce::from_slice(&nonce), &[0xffu8, 0xfe][..])
        .unwrap();
    let mut combined = nonce.to_vec();
    combined.extend_from_slice(&ct);
    let encoded = STANDARD.encode(combined);
    match decrypt("k", &encoded) {
        Err(CryptoError::InvalidUtf8(_)) => {}
        _ => panic!("expected a UTF-8 failure"),
    }
}

#[test]
fn decrypt_reads_text_sealed_by_the_cipher_directly() {
    let key = derive_key("k");
    let cipher = Aes256Gcm::new_from_slice(&key).unwrap();
    let nonce = [1u8; 12];
    let ct = cipher
        .encrypt(Nonce::from_slice(&nonce), "hello".as_bytes())
        .unwrap();
    let mut combined = nonce.to_vec();
    combined.extend_from_slice(&ct);
    assert_eq!(decrypt("k", &STANDARD.encode(combined)).unwrap(), "hello");
}

#[test]
fn error_messages() {
    assert_eq!(
        CryptoError::Encrypt("x".to_string()).message(),
        "Encryption failed: x"
    );
    assert_eq!(
        CryptoError::Decode("y".to_string()).message(),
        "Base64 decode failed: y"
    );
    assert_eq!(
        CryptoError::Decrypt("aead::Error".to_string()).message(),
        "Decryption failed: aead::Error"
    );
    assert_eq!(
        CryptoError::InvalidUtf8("z".to_string()).message(),
        "Invalid UTF-8: z"
    );
}
