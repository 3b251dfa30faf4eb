use secret_agent::error::Error;
use secret_agent::vault::{validate_name, Vault};
use tempfile::TempDir;

fn setup_test_vault() -> (Vault, TempDir) {
    let temp_dir = TempDir::new().unwrap();
    let vault_path = temp_dir.path().join("vault.db");
    let vault = Vault::open(vault_path.to_str().unwrap(), "test-passphrase".to_string()).unwrap();
    (vault, temp_dir)
}

#[test]
fn test_create_and_get() {
    let (mut vault, _temp) = setup_test_vault();

    vault.create("TEST_SECRET", "my-value").unwrap();
    let value = vault.get("TEST_SECRET").unwrap();

    assert_eq!(value, "my-value");
}

#[test]
fn test_create_duplicate_fails() {
    let (mut vault, _temp) = setup_test_vault();

    vault.create("TEST_SECRET", "value1").unwrap();
    let result = vault.create("TEST_SECRET", "value2");

    assert!(matches!(result, Err(Error::SecretAlreadyExists(_))));
}

#[test]
fn test_get_nonexistent_fails() {
    let (vault, _temp) = setup_test_vault();

    let result = vault.get("NONEXISTENT");

    assert!(matches!(result, Err(Error::SecretNotFound(_))));
}

#[test]
fn test_list() {
    let (mut vault, _temp) = setup_test_vault();

    vault.create("SECRET_A", "value-a").unwrap();
    vault.create("SECRET_B", "value-b").unwrap();

    let secrets = vault.list().unwrap();

    assert_eq!(secrets.len(), 2);
    assert_eq!(secrets[0].name, "SECRET_A");
    assert_eq!(secrets[1].name, "SECRET_B");
}

#[test]
fn test_delete() {
    let (mut vault, _temp) = setup_test_vault();

    vault.create("TO_DELETE", "value").unwrap();
    assert!(vault.has_secret("TO_DELETE").unwrap());

    vault.delete("TO_DELETE").unwrap();
    assert!(!vault.has_secret("TO_DELETE").unwrap());
}

#[test]
fn test_validate_name() {
    assert!(validate_name("VALID_NAME").is_ok());
    assert!(validate_name("valid-name").is_ok());
    assert!(validate_name("_private").is_ok());
    assert!(validate_name("").is_err());
    assert!(validate_name("123invalid").is_err());
    assert!(validate_name("has spaces").is_err());
}

#[test]
fn test_validate_name_with_bucket() {
    assert!(validate_name("prod/API_KEY").is_ok());
    assert!(validate_name("prod/").is_err());
    assert!(validate_name("/API_KEY").is_err());
    assert!(validate_name("a/b/c").is_err());
}

#[test]
fn test_create_get_exact_values() {
    let (mut vault, _temp) = setup_test_vault();

    vault.create("API_KEY", "sk-12345").unwrap();
    assert_eq!(vault.get("API_KEY").unwrap(), "sk-12345");
    assert!(matches!(
        vault.create("API_KEY", "sk-12345"),
        Err(Error::SecretAlreadyExists(_))
    ));
    assert!(matches!(vault.get("NOPE"), Err(Error::SecretNotFound(_))));
}

#[test]
fn test_invalid_name_rejected_on_every_mutation() {
    let (mut vault, _temp) = setup_test_vault();

    assert!(matches!(vault.create("has spaces", "v"), Err(Error::InvalidSecretName(_))));
    assert!(matches!(vault.update("has spaces", "v"), Err(Error::InvalidSecretName(_))));
    assert!(matches!(vault.delete("has spaces"), Err(Error::InvalidSecretName(_))));
}

#[test]
fn test_create_or_update_overwrites() {
    let (mut vault, _temp) = setup_test_vault();

    vault.create_or_update("KEY", "first").unwrap();
    vault.create_or_update("KEY", "second").unwrap();
    assert_eq!(vault.get("KEY").unwrap(), "second");
}

#[test]
fn test_fresh_create_timestamps_equal() {
    let (mut vault, _temp) = setup_test_vault();

    vault.create("FRESH", "v").unwrap();
    let rows = vault.list().unwrap();
    assert_eq!(rows.len(), 1);
    assert_eq!(rows[0].created_at, rows[0].updated_at);
}

#[test]
fn test_overwrite_preserves_created_at() {
    let (mut vault, _temp) = setup_test_vault();

    vault.create("KEY", "first").unwrap();
    let before = vault.list().unwrap();
    vault.create_or_update("KEY", "second").unwrap();
    let after = vault.list().unwrap();
    assert_eq!(before[0].created_at, after[0].created_at);
}

#[test]
fn test_update_missing_fails() {
    let (mut vault, _temp) = setup_test_vault();
    assert!(matches!(vault.update("ABSENT", "v"), Err(Error::SecretNotFound(_))));
}

#[test]
fn test_delete_missing_fails() {
    let (mut vault, _temp) = setup_test_vault();
    assert!(matches!(vault.delete("ABSENT"), Err(Error::SecretNotFound(_))));
}

#[test]
fn test_list_is_stable_between_calls() {
    let (mut vault, _temp) = setup_test_vault();

    vault.create("B_SECOND", "2").unwrap();
    vault.create("A_FIRST", "1").unwrap();

    let first = vault.list().unwrap();
    let second = vault.list().unwrap();

    assert_eq!(first.len(), 2);
    assert_eq!(first[0].name, "A_FIRST");
    assert_eq!(first[1].name, "B_SECOND");
    let names1: Vec<String> = first.iter().map(|s| s.name.clone()).collect();
    let names2: Vec<String> = second.iter().map(|s| s.name.clone()).collect();
    assert_eq!(names1, names2);
    for (a, b) in first.iter().zip(second.iter()) {
        assert_eq!(a.created_at, b.created_at);
        assert_eq!(a.updated_at, b.updated_at);
    }
}

#[test]
fn test_list_by_bucket_filters() {
    let (mut vault, _temp) = setup_test_vault();

    vault.create("prod/KEY", "p").unwrap();
    vault.create("dev/KEY", "d").unwrap();
    vault.create("PLAIN", "x").unwrap();

    let prod = vault.list_by_bucket(Some("prod")).unwrap();
    assert_eq!(prod.len(), 1);
    assert_eq!(prod[0].name, "prod/KEY");

    let all = vault.list_by_bucket(None).unwrap();
    assert_eq!(all.len(), 3);
}

#[test]
fn test_same_name_in_different_buckets() {
    let (mut vault, _temp) = setup_test_vault();

    vault.create("prod/KEY", "prod-value").unwrap();
    vault.create("dev/KEY", "dev-value").unwrap();

    assert_eq!(vault.get("prod/KEY").unwrap(), "prod-value");
    assert_eq!(vault.get("dev/KEY").unwrap(), "dev-value");
}

#[test]
fn test_wrong_master_key_gives_decryption_error() {
    let temp_dir = TempDir::new().unwrap();
    let vault_path = temp_dir.path().join("vault.db");
    let path = vault_path.to_str().unwrap();

    let mut vault = Vault::open(path, "right-key".to_string()).unwrap();
    vault.create("KEY", "value").unwrap();
    drop(vault);

    let other = Vault::open(path, "wrong-key".to_string()).unwrap();
    assert!(matches!(other.get("KEY"), Err(Error::Decryption(_))));
}

#[test]
fn test_open_unwritable_location_is_storage_error() {
    let result = Vault::open("/nonexistent-dir-for-vault/sub/vault.db", "k".to_string());
    assert!(matches!(result, Err(Error::Storage(_))));
}

#[test]
fn test_open_is_idempotent() {
    let temp_dir = TempDir::new().unwrap();
    let vault_path = temp_dir.path().join("vault.db");
    let path = vault_path.to_str().unwrap();

    let mut vault = Vault::open(path, "k".to_string()).unwrap();
    vault.create("KEEP", "v").unwrap();
    drop(vault);

    let reopened = Vault::open(path, "k".to_string()).unwrap();
    assert_eq!(reopened.get("KEEP").unwrap(), "v");
}
