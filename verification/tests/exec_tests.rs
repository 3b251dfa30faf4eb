use secret_agent::exec::{
    build_command, exit_code_of, inject_secrets, parse_env_spec, parse_placeholders, shell_quote,
};

#[test]
fn test_parse_env_spec_simple() {
    let (secret, var) = parse_env_spec("API_KEY");
    assert_eq!(secret, "API_KEY");
    assert_eq!(var, "API_KEY");
}

#[test]
fn test_parse_env_spec_renamed() {
    let (secret, var) = parse_env_spec("MY_SECRET:OPENAI_API_KEY");
    assert_eq!(secret, "MY_SECRET");
    assert_eq!(var, "OPENAI_API_KEY");
}

#[test]
fn test_parse_env_spec_with_bucket() {
    let (secret, var) = parse_env_spec("prod/API_KEY");
    assert_eq!(secret, "prod/API_KEY");
    assert_eq!(var, "API_KEY"); // env var is just the name, not bucket/name
}

#[test]
fn test_parse_env_spec_with_bucket_renamed() {
    let (secret, var) = parse_env_spec("prod/SECRET:MY_VAR");
    assert_eq!(secret, "prod/SECRET");
    assert_eq!(var, "MY_VAR");
}

#[test]
fn test_parse_placeholders() {
    let cmd = "curl -H 'Auth: {{API_KEY}}' --data '{{DATA}}'";
    let names = parse_placeholders(cmd);
    assert_eq!(names, vec!["API_KEY", "DATA"]);
}

#[test]
fn test_parse_placeholders_dedupe() {
    let cmd = "echo {{SECRET}} {{SECRET}} {{OTHER}}";
    let names = parse_placeholders(cmd);
    assert_eq!(names, vec!["SECRET", "OTHER"]);
}

#[test]
fn test_parse_placeholders_empty() {
    let cmd = "echo hello world";
    let names = parse_placeholders(cmd);
    assert!(names.is_empty());
}

#[test]
fn test_inject_secrets() {
    let secrets = vec![
        ("API_KEY".to_string(), "sk-12345".to_string()),
        ("HOST".to_string(), "example.com".to_string()),
    ];

    let cmd = "curl https://{{HOST}}/api -H 'Auth: {{API_KEY}}'";
    let result = inject_secrets(cmd, &secrets);

    assert_eq!(result, "curl https://example.com/api -H 'Auth: sk-12345'");
}

#[test]
fn test_shell_quote_simple() {
    assert_eq!(shell_quote("hello"), "hello");
    assert_eq!(shell_quote("file.txt"), "file.txt");
    assert_eq!(shell_quote("/path/to/file"), "/path/to/file");
    assert_eq!(shell_quote("my-name_123"), "my-name_123");
}

#[test]
fn test_shell_quote_special_chars() {
    assert_eq!(shell_quote("hello world"), "'hello world'");
    assert_eq!(shell_quote("echo \"test\""), "'echo \"test\"'");
    assert_eq!(shell_quote("it's"), "'it'\\''s'");
}

#[test]
fn test_shell_quote_preserves_sh_c_args() {
    // When the operator runs: exec sh -c 'echo "{{KEY}}"'
    // the shell hands over: ["sh", "-c", "echo \"{{KEY}}\""]
    // and the rebuilt string must be: sh -c 'echo "{{KEY}}"'
    let parts = vec!["sh".to_string(), "-c".to_string(), "echo \"{{KEY}}\"".to_string()];
    let quoted: Vec<String> = parts.iter().map(|s| shell_quote(s)).collect();
    let command = quoted.join(" ");
    assert_eq!(command, "sh -c 'echo \"{{KEY}}\"'");
}

#[test]
fn test_shell_quote_empty_string() {
    assert_eq!(shell_quote(""), "''");
}

#[test]
fn test_shell_quote_backticks() {
    assert_eq!(shell_quote("echo `whoami`"), "'echo `whoami`'");
}

#[test]
fn test_shell_quote_dollar_signs() {
    assert_eq!(shell_quote("echo $HOME"), "'echo $HOME'");
    assert_eq!(shell_quote("${VAR}"), "'${VAR}'");
}

#[test]
fn test_shell_quote_semicolons_and_pipes() {
    assert_eq!(shell_quote("cmd1; cmd2"), "'cmd1; cmd2'");
    assert_eq!(shell_quote("cmd1 | cmd2"), "'cmd1 | cmd2'");
    assert_eq!(shell_quote("cmd1 && cmd2"), "'cmd1 && cmd2'");
}

#[test]
fn test_shell_quote_newlines() {
    assert_eq!(shell_quote("line1\nline2"), "'line1\nline2'");
}

#[test]
fn test_shell_quote_mixed_quotes() {
    // Single quotes inside need escaping
    assert_eq!(shell_quote("it's a \"test\""), "'it'\\''s a \"test\"'");
}

#[test]
fn test_shell_quote_parentheses() {
    assert_eq!(shell_quote("(subshell)"), "'(subshell)'");
    assert_eq!(shell_quote("$(command)"), "'$(command)'");
}

#[test]
fn test_command_reconstruction_simple() {
    let parts = vec!["echo".to_string(), "hello".to_string()];
    let command: String = parts.iter().map(|s| shell_quote(s)).collect::<Vec<_>>().join(" ");
    assert_eq!(command, "echo hello");
}

#[test]
fn test_command_reconstruction_with_flags() {
    let parts = vec![
        "curl".to_string(),
        "-X".to_string(),
        "POST".to_string(),
        "https://api.example.com".to_string(),
    ];
    let command: String = parts.iter().map(|s| shell_quote(s)).collect::<Vec<_>>().join(" ");
    assert_eq!(command, "curl -X POST https://api.example.com");
}

#[test]
fn test_command_reconstruction_with_json() {
    // When the operator runs: exec curl -d '{"key": "value"}'
    // the shell hands over: ["curl", "-d", "{\"key\": \"value\"}"]
    let parts = vec!["curl".to_string(), "-d".to_string(), "{\"key\": \"value\"}".to_string()];
    let command: String = parts.iter().map(|s| shell_quote(s)).collect::<Vec<_>>().join(" ");
    assert_eq!(command, "curl -d '{\"key\": \"value\"}'");
}

#[test]
fn test_command_reconstruction_piped_to_vercel() {
    // exec sh -c 'echo "{{KEY}}" | vercel env add KEY production'
    // hands over: ["sh", "-c", "echo \"{{KEY}}\" | vercel env add KEY production"]
    let parts = vec![
        "sh".to_string(),
        "-c".to_string(),
        "echo \"{{KEY}}\" | vercel env add KEY production".to_string(),
    ];
    let command: String = parts.iter().map(|s| shell_quote(s)).collect::<Vec<_>>().join(" ");
    assert_eq!(command, "sh -c 'echo \"{{KEY}}\" | vercel env add KEY production'");
}

#[test]
fn test_parse_placeholders_in_quoted_command() {
    // After shell quoting, placeholders are still findable
    let parts = vec!["sh".to_string(), "-c".to_string(), "echo \"{{API_KEY}}\"".to_string()];
    let command: String = parts.iter().map(|s| shell_quote(s)).collect::<Vec<_>>().join(" ");
    let placeholders = parse_placeholders(&command);
    assert_eq!(placeholders, vec!["API_KEY"]);
}

#[test]
fn test_inject_secrets_in_quoted_command() {
    let parts = vec!["sh".to_string(), "-c".to_string(), "echo \"{{API_KEY}}\"".to_string()];
    let command: String = parts.iter().map(|s| shell_quote(s)).collect::<Vec<_>>().join(" ");

    let secrets = vec![("API_KEY".to_string(), "sk-secret-123".to_string())];

    let injected = inject_secrets(&command, &secrets);
    assert_eq!(injected, "sh -c 'echo \"sk-secret-123\"'");
}

#[test]
fn test_full_pipeline_sh_c_echo() {
    // The full pipeline for: exec sh -c 'echo "{{KEY}}"'
    let command_parts = vec!["sh".to_string(), "-c".to_string(), "echo \"{{KEY}}\"".to_string()];

    // Step 1: build the command with proper quoting
    let command: String = command_parts.iter().map(|s| shell_quote(s)).collect::<Vec<_>>().join(
        " ",
    );
    assert_eq!(command, "sh -c 'echo \"{{KEY}}\"'");

    // Step 2: parse placeholders
    let placeholders = parse_placeholders(&command);
    assert_eq!(placeholders, vec!["KEY"]);

    // Step 3: inject secrets
    let secrets = vec![("KEY".to_string(), "my-secret-value".to_string())];
    let injected = inject_secrets(&command, &secrets);
    assert_eq!(injected, "sh -c 'echo \"my-secret-value\"'");
}

#[test]
fn test_full_pipeline_complex_command() {
    // exec sh -c 'curl -H "Auth: {{TOKEN}}" https://api.com | jq .data'
    let command_parts = vec![
        "sh".to_string(),
        "-c".to_string(),
        "curl -H \"Auth: {{TOKEN}}\" https://api.com | jq .data".to_string(),
    ];

    let command: String = command_parts.iter().map(|s| shell_quote(s)).collect::<Vec<_>>().join(
        " ",
    );

    let secrets = vec![("TOKEN".to_string(), "bearer-xyz".to_string())];

    let injected = inject_secrets(&command, &secrets);
    assert!(injected.contains("bearer-xyz"));
    assert!(injected.contains("jq .data"));
}

#[test]
fn test_build_command_matches_manual_join() {
    let parts = vec!["echo".to_string(), "two words".to_string(), "plain".to_string()];
    assert_eq!(build_command(&parts), "echo 'two words' plain");
    let empty: Vec<String> = vec![];
    assert_eq!(build_command(&empty), "");
}

#[test]
fn test_exit_code_propagation() {
    // A child that exits with a code is reported with exactly that code;
    // a child killed by a signal is reported with the default failure code.
    assert_eq!(exit_code_of(Some(42)), 42);
    assert_eq!(exit_code_of(Some(0)), 0);
    assert_eq!(exit_code_of(None), 1);
}
