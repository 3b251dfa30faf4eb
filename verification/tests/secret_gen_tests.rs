use secret_agent::secret_gen::{generate, Charset};

#[test]
fn test_generate_alphanumeric() {
    let secret = generate(32, Charset::Alphanumeric);
    assert_eq!(secret.len(), 32);
    assert!(secret.chars().all(|c| c.is_alphanumeric()));
}

#[test]
fn test_generate_hex() {
    let secret = generate(64, Charset::Hex);
    assert_eq!(secret.len(), 64);
    assert!(secret.chars().all(|c| c.is_ascii_hexdigit()));
}

#[test]
fn test_generate_length() {
    for len in [8, 16, 32, 64, 128] {
        let secret = generate(len, Charset::Alphanumeric);
        assert_eq!(secret.len(), len);
    }
}

#[test]
fn test_charset_from_str() {
    assert!(matches!("alphanumeric".parse(), Ok(Charset::Alphanumeric)));
    assert!(matches!("hex".parse(), Ok(Charset::Hex)));
    assert!(matches!("base64".parse(), Ok(Charset::Base64)));
    assert!(matches!("ascii".parse(), Ok(Charset::Ascii)));
    assert!("invalid".parse::<Charset>().is_err());
}

#[test]
fn test_charset_parse_ignores_case() {
    assert!(matches!("Alphanumeric".parse(), Ok(Charset::Alphanumeric)));
    assert!(matches!("HEX".parse(), Ok(Charset::Hex)));
}

#[test]
fn test_generate_base64_charset() {
    let secret = generate(100, Charset::Base64);
    assert_eq!(secret.len(), 100);
    assert!(secret.chars().all(|c| c.is_ascii_alphanumeric() || c == '+' || c == '/'));
}
