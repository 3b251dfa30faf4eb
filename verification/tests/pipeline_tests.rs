use secret_agent::error::Error;
use secret_agent::envfile::{export_content, import_plan};
use secret_agent::exec::prepare_exec;
use secret_agent::vault::Vault;
use tempfile::TempDir;

fn setup_test_vault() -> (Vault, TempDir) {
    let temp_dir = TempDir::new().unwrap();
    let vault_path = temp_dir.path().join("vault.db");
    let vault = Vault::open(vault_path.to_str().unwrap(), "test-passphrase".to_string()).unwrap();
    (vault, temp_dir)
}

#[test]
fn test_prepare_exec_env_and_placeholder() {
    let (mut vault, _temp) = setup_test_vault();
    vault.create("prod/API_KEY", "sk-12345").unwrap();
    vault.create("TOKEN", "tok-999").unwrap();

    let env_secrets = vec!["prod/API_KEY:MY_VAR".to_string()];
    let command = vec![
        "sh".to_string(),
        "-c".to_string(),
        "curl -H \"Auth: {{TOKEN}}\"".to_string(),
    ];
    let plan = prepare_exec(&vault, &env_secrets, &command).unwrap();

    assert_eq!(plan.env_vars, vec![("MY_VAR".to_string(), "sk-12345".to_string())]);
    assert_eq!(plan.command, "sh -c 'curl -H \"Auth: tok-999\"'");
    assert_eq!(
        plan.secrets,
        vec![
            ("MY_VAR".to_string(), "sk-12345".to_string()),
            ("TOKEN".to_string(), "tok-999".to_string()),
        ]
    );
}

#[test]
fn test_prepare_exec_reuses_env_resolved_placeholder() {
    let (mut vault, _temp) = setup_test_vault();
    vault.create("KEY", "value-1").unwrap();

    let env_secrets = vec!["KEY".to_string()];
    let command = vec!["echo".to_string(), "{{KEY}}".to_string()];
    let plan = prepare_exec(&vault, &env_secrets, &command).unwrap();

    // the placeholder token itself is quoted first, then substituted
    assert_eq!(plan.command, "echo 'value-1'");
}

#[test]
fn test_prepare_exec_missing_secret_aborts() {
    let (vault, _temp) = setup_test_vault();

    let env_secrets = vec!["ABSENT".to_string()];
    let command = vec!["true".to_string()];
    assert!(matches!(
        prepare_exec(&vault, &env_secrets, &command),
        Err(Error::SecretNotFound(_))
    ));

    let no_env: Vec<String> = vec![];
    let command = vec!["echo".to_string(), "{{MISSING}}".to_string()];
    assert!(matches!(prepare_exec(&vault, &no_env, &command), Err(Error::SecretNotFound(_))));
}

#[test]
fn test_prepare_exec_without_references_changes_nothing() {
    let (vault, _temp) = setup_test_vault();

    let no_env: Vec<String> = vec![];
    let command = vec!["echo".to_string(), "hello world".to_string()];
    let plan = prepare_exec(&vault, &no_env, &command).unwrap();

    assert_eq!(plan.command, "echo 'hello world'");
    assert!(plan.env_vars.is_empty());
    assert!(plan.secrets.is_empty());
}

#[test]
fn test_export_content_builds_env_file() {
    let (mut vault, _temp) = setup_test_vault();
    vault.create("API_KEY", "sk-12345").unwrap();
    vault.create("PASS", "two words").unwrap();

    let names = vec!["API_KEY".to_string(), "PASS".to_string()];
    let content = export_content(&vault, &names).unwrap();
    assert_eq!(content, "API_KEY=sk-12345\nPASS=\"two words\"\n");
}

#[test]
fn test_export_nothing_succeeds() {
    let (vault, _temp) = setup_test_vault();
    let names: Vec<String> = vec![];
    assert_eq!(export_content(&vault, &names).unwrap(), "\n");
}

#[test]
fn test_import_plan_without_entries_succeeds() {
    let (mut vault, _temp) = setup_test_vault();
    let (imported, skipped) = import_plan(&mut vault, "# only a comment\n\nnot an assignment\n")
        .unwrap();
    assert!(imported.is_empty());
    assert!(skipped.is_empty());
}

#[test]
fn test_export_missing_secret_fails() {
    let (vault, _temp) = setup_test_vault();
    let names = vec!["NOPE".to_string()];
    assert!(matches!(export_content(&vault, &names), Err(Error::SecretNotFound(_))));
}

#[test]
fn test_import_plan_creates_and_skips() {
    let (mut vault, _temp) = setup_test_vault();
    vault.create("TAKEN", "original").unwrap();

    let content = "# comment\n\nTAKEN=ignored\nFRESH=value-1\nexport OTHER=value-2\nbroken line\n";
    let (imported, skipped) = import_plan(&mut vault, content).unwrap();

    assert_eq!(imported, vec!["FRESH", "OTHER"]);
    assert_eq!(skipped, vec!["TAKEN"]);
    assert_eq!(vault.get("TAKEN").unwrap(), "original");
    assert_eq!(vault.get("FRESH").unwrap(), "value-1");
    assert_eq!(vault.get("OTHER").unwrap(), "value-2");
}

#[test]
fn test_exit_code_propagated_with_sanitized_output() {
    // A child that printed a secret and exited with code 42 is reported
    // with exit code 42, and its captured output is redacted before anyone
    // sees it.
    let secrets = vec![("API_KEY".to_string(), "sk-12345".to_string())];
    let captured_stdout: &[u8] = b"token sk-12345\n";
    let shown = secret_agent::sanitize::sanitize_bytes(captured_stdout, &secrets);
    assert_eq!(shown, "token [REDACTED:API_KEY]\n");
    assert_eq!(secret_agent::exec::exit_code_of(Some(42)), 42);
}

#[test]
fn test_import_plan_first_duplicate_wins() {
    let (mut vault, _temp) = setup_test_vault();

    let content = "KEY=first\nKEY=second\n";
    let (imported, skipped) = import_plan(&mut vault, content).unwrap();

    assert_eq!(imported, vec!["KEY"]);
    assert_eq!(skipped, vec!["KEY"]);
    assert_eq!(vault.get("KEY").unwrap(), "first");
}
