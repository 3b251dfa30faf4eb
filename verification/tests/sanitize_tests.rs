use secret_agent::sanitize::{sanitize, sanitize_bytes};

fn secrets() -> Vec<(String, String)> {
    vec![
        ("API_KEY".to_string(), "sk-12345".to_string()),
        ("PASSWORD".to_string(), "hunter2".to_string()),
    ]
}

#[test]
fn test_sanitize_direct_match() {
    let output = "Connecting with token sk-12345...";
    let result = sanitize(output, &secrets());
    assert_eq!(result, "Connecting with token [REDACTED:API_KEY]...");
}

#[test]
fn test_sanitize_multiple_occurrences() {
    let output = "key=sk-12345, again: sk-12345";
    let result = sanitize(output, &secrets());
    assert_eq!(result, "key=[REDACTED:API_KEY], again: [REDACTED:API_KEY]");
}

#[test]
fn test_sanitize_multiple_secrets() {
    let output = "user:hunter2 key:sk-12345";
    let result = sanitize(output, &secrets());
    assert!(result.contains("[REDACTED:PASSWORD]"));
    assert!(result.contains("[REDACTED:API_KEY]"));
}

#[test]
fn test_sanitize_base64() {
    let secrets = vec![("SECRET".to_string(), "hello".to_string())];
    // "hello" in base64 is "aGVsbG8="
    let output = "encoded: aGVsbG8=";
    let result = sanitize(output, &secrets);
    assert_eq!(result, "encoded: [REDACTED:SECRET:base64]");
}

#[test]
fn test_sanitize_base64_url_safe() {
    let secrets = vec![("SECRET".to_string(), "???>".to_string())];
    // "???>" is "Pz8/Pg==" in standard base64 and "Pz8_Pg==" URL-safe
    let output = "std: Pz8/Pg== url: Pz8_Pg==";
    let result = sanitize(output, &secrets);
    assert_eq!(result, "std: [REDACTED:SECRET:base64] url: [REDACTED:SECRET:base64url]");
}

#[test]
fn test_sanitize_url_encoded() {
    let secrets = vec![("SECRET".to_string(), "hello world".to_string())];
    // "hello world" url-encoded is "hello%20world"
    let output = "param=hello%20world";
    let result = sanitize(output, &secrets);
    assert_eq!(result, "param=[REDACTED:SECRET:urlencoded]");
}

#[test]
fn test_sanitize_no_match() {
    let output = "nothing secret here";
    let result = sanitize(output, &secrets());
    assert_eq!(result, "nothing secret here");
}

#[test]
fn test_sanitize_empty_secret() {
    let s = vec![("EMPTY".to_string(), "".to_string())];
    let output = "test output";
    let result = sanitize(output, &s);
    assert_eq!(result, "test output");
}

#[test]
fn test_sanitize_bytes_redacts_and_decodes() {
    let out = sanitize_bytes(b"key=sk-12345", &secrets());
    assert_eq!(out, "key=[REDACTED:API_KEY]");
}

#[test]
fn test_sanitize_bytes_invalid_utf8_never_fatal() {
    let out = sanitize_bytes(&[0x66, 0x6f, 0x6f, 0xff], &secrets());
    assert_eq!(out, "foo\u{fffd}");
}
