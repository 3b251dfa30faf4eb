use secret_agent::crypto::{decrypt, encrypt};

#[test]
fn test_encrypt_decrypt_roundtrip() {
    let plaintext = b"my-secret-value";
    let passphrase = "test-passphrase";

    let encrypted = encrypt(plaintext, passphrase).unwrap();
    assert_ne!(encrypted, plaintext);

    let decrypted = decrypt(&encrypted, passphrase).unwrap();
    assert_eq!(decrypted, plaintext);
}

#[test]
fn test_wrong_passphrase_fails() {
    let plaintext = b"my-secret-value";
    let passphrase = "correct-passphrase";
    let wrong_passphrase = "wrong-passphrase";

    let encrypted = encrypt(plaintext, passphrase).unwrap();
    let result = decrypt(&encrypted, wrong_passphrase);

    assert!(result.is_err());
}

#[test]
fn test_empty_plaintext() {
    let plaintext = b"";
    let passphrase = "test-passphrase";

    let encrypted = encrypt(plaintext, passphrase).unwrap();
    let decrypted = decrypt(&encrypted, passphrase).unwrap();
    assert_eq!(decrypted, plaintext);
}

#[test]
fn test_two_encryptions_differ() {
    // A fresh salt and nonce are drawn per call, so equal inputs give
    // different ciphertexts that decrypt to the same plaintext.
    let a = encrypt(b"same", "k").unwrap();
    let b = encrypt(b"same", "k").unwrap();
    assert_ne!(a, b);
    assert_eq!(decrypt(&a, "k").unwrap(), b"same");
    assert_eq!(decrypt(&b, "k").unwrap(), b"same");
}

#[test]
fn test_corrupt_ciphertext_fails() {
    let mut encrypted = encrypt(b"payload", "k").unwrap();
    let last = encrypted.len() - 1;
    encrypted[last] ^= 0xff;
    assert!(decrypt(&encrypted, "k").is_err());
}
