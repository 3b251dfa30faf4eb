use secret_agent::error::Error;

#[test]
fn test_error_messages_name_the_secret_only() {
    let e = Error::SecretNotFound("API_KEY".to_string());
    assert_eq!(e.message(), "secret 'API_KEY' not found");

    let e = Error::SecretAlreadyExists("API_KEY".to_string());
    assert_eq!(e.message(), "secret 'API_KEY' already exists");
}

#[test]
fn test_error_message_prefixes() {
    assert_eq!(Error::Encryption("boom".to_string()).message(), "encryption error: boom");
    assert_eq!(Error::Decryption("boom".to_string()).message(), "decryption error: boom");
    assert_eq!(Error::KeySource("boom".to_string()).message(), "keychain error: boom");
    assert_eq!(Error::Storage("boom".to_string()).message(), "database error: boom");
    assert_eq!(Error::Io("boom".to_string()).message(), "io error: boom");
    assert_eq!(Error::InvalidSecretName("why".to_string()).message(), "invalid secret name: why");
}
