use mailclient::b64::b64_decode_std;
use mailclient::crypto::{decrypt, encrypt, generate_encryption_key};

#[test]
fn test_encrypt_decrypt() {
    let plaintext = "Hello, World! This is a test message.";
    let password = "my-secure-password";

    let encrypted = encrypt(plaintext, password).unwrap();
    let decrypted = decrypt(&encrypted, password).unwrap();

    assert_eq!(plaintext, decrypted);
}

#[test]
fn test_wrong_password() {
    let plaintext = "Secret data";
    let password = "correct-password";
    let wrong_password = "wrong-password";

    let encrypted = encrypt(plaintext, password).unwrap();
    let result = decrypt(&encrypted, wrong_password);

    assert!(result.is_err());
}

#[test]
fn test_generate_encryption_key() {
    let key1 = generate_encryption_key("password123", "user@example.com");
    let key2 = generate_encryption_key("password123", "user@example.com");
    let key3 = generate_encryption_key("password123", "other@example.com");

    // Same inputs produce same key
    assert_eq!(key1, key2);
    // Different email produces different key
    assert_ne!(key1, key3);
    // Key is 64 hex chars (32 bytes)
    assert_eq!(key1.len(), 64);
}

#[test]
fn corrupted_envelope_fails_closed() {
    let encrypted = encrypt("payload", "pw").unwrap();
    // flip a character in the middle of the envelope
    let mut chars: Vec<char> = encrypted.chars().collect();
    let mid = chars.len() / 2;
    chars[mid] = if chars[mid] == 'A' { 'B' } else { 'A' };
    let tampered: String = chars.into_iter().collect();
    assert!(decrypt(&tampered, "pw").is_err());
    // not base64 at all
    assert!(decrypt("@@not-base64@@", "pw").is_err());
    // too short
    assert!(decrypt("QUJD", "pw").is_err());
}

#[test]
fn envelope_carries_salt_nonce_and_tag_overhead() {
    let sealed = encrypt("abc", "pw").unwrap();
    let raw = b64_decode_std(&sealed).unwrap();
    // 16-byte salt, 12-byte nonce, ciphertext as long as the plaintext, 16-byte tag
    assert_eq!(raw.len(), 3 + 44);
}

#[test]
fn repeated_encryption_uses_fresh_randomness() {
    let a = encrypt("same message", "same password").unwrap();
    let b = encrypt("same message", "same password").unwrap();
    // a fresh salt and nonce per call make the envelopes differ
    assert_ne!(a, b);
    assert_eq!(decrypt(&a, "same password").unwrap(), "same message");
    assert_eq!(decrypt(&b, "same password").unwrap(), "same message");
}
