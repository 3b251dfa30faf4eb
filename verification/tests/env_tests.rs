use secret_agent::envfile::{
    parse_env_line, quote_env_value, replace_placeholder, unquote_env_value, upsert_env_line,
};

#[test]
fn test_parse_env_line() {
    assert_eq!(
        parse_env_line("API_KEY=sk-12345"),
        Some(("API_KEY".to_string(), "sk-12345".to_string()))
    );

    assert_eq!(
        parse_env_line("export DB_PASS=hunter2"),
        Some(("DB_PASS".to_string(), "hunter2".to_string()))
    );

    assert_eq!(
        parse_env_line("QUOTED=\"hello world\""),
        Some(("QUOTED".to_string(), "hello world".to_string()))
    );

    assert_eq!(parse_env_line("# comment"), None);
    assert_eq!(parse_env_line(""), None);
    assert_eq!(parse_env_line("invalid line"), None);
}

#[test]
fn test_unquote_env_value() {
    assert_eq!(unquote_env_value("simple"), "simple");
    assert_eq!(unquote_env_value("\"quoted\""), "quoted");
    assert_eq!(unquote_env_value("'single'"), "single");
    assert_eq!(unquote_env_value("\"with\\nnewline\""), "with\nnewline");
    assert_eq!(unquote_env_value("\"with\\\"quote\""), "with\"quote");
}

#[test]
fn env_test_quote_env_value() {
    assert_eq!(quote_env_value("simple"), "simple");
    assert_eq!(quote_env_value("has space"), "\"has space\"");
    assert_eq!(quote_env_value("has$var"), "\"has\\$var\"");
}

#[test]
fn inject_test_quote_env_value() {
    assert_eq!(quote_env_value("simple"), "simple");
    assert_eq!(quote_env_value("has space"), "\"has space\"");
    assert_eq!(quote_env_value("has$dollar"), "\"has\\$dollar\"");
    assert_eq!(quote_env_value("has\"quote"), "\"has\\\"quote\"");
}

#[test]
fn test_upsert_env_new_content() {
    assert_eq!(upsert_env_line("", "API_KEY", "sk-12345"), "API_KEY=sk-12345\n");
}

#[test]
fn test_upsert_env_replaces_existing_var() {
    let content = "API_KEY=old-value\nOTHER=keep\n";
    let updated = upsert_env_line(content, "API_KEY", "new-value");
    assert!(updated.contains("API_KEY=new-value"));
    assert!(updated.contains("OTHER=keep"));
    assert!(!updated.contains("old-value"));
}

#[test]
fn test_upsert_env_replaces_export_form() {
    let content = "export API_KEY=old-value\n";
    let updated = upsert_env_line(content, "API_KEY", "fresh");
    assert_eq!(updated, "API_KEY=fresh\n");
}

#[test]
fn test_upsert_env_appends_missing_var() {
    let content = "EXISTING=value\n";
    let updated = upsert_env_line(content, "NEW_KEY", "new-value");
    assert!(updated.contains("EXISTING=value"));
    assert!(updated.contains("NEW_KEY=new-value"));
    assert!(updated.ends_with('\n'));
}

#[test]
fn test_replace_placeholder_in_content() {
    let content = "password={{DB_PASS}}\n";
    let replaced = replace_placeholder(content, "{{DB_PASS}}", "secret123");
    assert_eq!(replaced, Some("password=secret123\n".to_string()));
}

#[test]
fn test_replace_placeholder_missing() {
    let content = "password=fixed\n";
    assert_eq!(replace_placeholder(content, "{{DB_PASS}}", "secret123"), None);
}
