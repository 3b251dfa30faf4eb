use secret_agent::error::Error;
use secret_agent::keychain::{
    accept_key_file, chain_start, chain_step, ChainState, FileProbe, KeyEvent, KeyOutcome,
    KeyRequest, mint_master_key, should_use_file_fallback,
};

#[test]
fn test_rejects_insecure_permissions() {
    // A master-key file readable by group or other is rejected whatever it
    // holds.
    let result = accept_key_file(0o644, "secret-key");
    assert!(result.is_err());
    assert!(result.unwrap_err().message().contains("insecure permissions"));

    assert!(accept_key_file(0o640, "secret-key").is_err());
    assert!(accept_key_file(0o604, "secret-key").is_err());
    assert!(accept_key_file(0o666, "completely-valid-key-material").is_err());
}

#[test]
fn test_accepts_owner_only_permissions() {
    assert_eq!(accept_key_file(0o600, "secret-key").unwrap(), "secret-key");
    assert_eq!(accept_key_file(0o400, "secret-key").unwrap(), "secret-key");
}

#[test]
fn test_key_file_trims_whitespace() {
    let retrieved = accept_key_file(0o600, "my-key-value\n").unwrap();
    assert_eq!(retrieved, "my-key-value");
}

#[test]
fn test_chain_env_override_wins() {
    let (state, request) = chain_start();
    assert!(matches!(request, KeyRequest::ReadEnvPassphrase));

    let outcome = chain_step(state, KeyEvent::EnvPassphrase(Some("from-env".to_string())));
    match outcome {
        KeyOutcome::Done(key) => assert_eq!(key, "from-env"),
        _ => panic!("environment override must resolve the chain"),
    }
}

#[test]
fn test_chain_forced_file_reads_key() {
    let (state, _) = chain_start();
    let s1 = match chain_step(state, KeyEvent::EnvPassphrase(None)) {
        KeyOutcome::Next(s, KeyRequest::ReadEnvUseFile) => s,
        _ => panic!("expected the file-toggle read"),
    };
    let s2 = match chain_step(s1, KeyEvent::EnvUseFile(true)) {
        KeyOutcome::Next(s, KeyRequest::ReadKeyFile) => s,
        _ => panic!("expected the key-file probe"),
    };
    match chain_step(s2, KeyEvent::KeyFile(FileProbe::Found(0o600, "stored\n".to_string()))) {
        KeyOutcome::Done(key) => assert_eq!(key, "stored"),
        _ => panic!("a secure key file must resolve the chain"),
    }
}

#[test]
fn test_chain_insecure_file_is_key_source_error() {
    let (state, _) = chain_start();
    let s1 = match chain_step(state, KeyEvent::EnvPassphrase(None)) {
        KeyOutcome::Next(s, _) => s,
        _ => panic!("expected continuation"),
    };
    let s2 = match chain_step(s1, KeyEvent::EnvUseFile(true)) {
        KeyOutcome::Next(s, _) => s,
        _ => panic!("expected continuation"),
    };
    match chain_step(s2, KeyEvent::KeyFile(FileProbe::Found(0o644, "valid-key".to_string()))) {
        KeyOutcome::Fail(Error::KeySource(_)) => {},
        _ => panic!("an insecure key file must fail with a KeySource error"),
    }
}

#[test]
fn test_chain_keychain_miss_mints_and_stores() {
    let (state, _) = chain_start();
    let s1 = match chain_step(state, KeyEvent::EnvPassphrase(None)) {
        KeyOutcome::Next(s, _) => s,
        _ => panic!("expected continuation"),
    };
    let s2 = match chain_step(s1, KeyEvent::EnvUseFile(false)) {
        KeyOutcome::Next(s, KeyRequest::QueryKeychain) => s,
        _ => panic!("expected the credential-store probe"),
    };
    let s3 = match chain_step(s2, KeyEvent::Keychain(
        secret_agent::keychain::KeychainProbe::Missing,
    )) {
        KeyOutcome::Next(s, KeyRequest::MintKey) => s,
        _ => panic!("a miss must mint a fresh key"),
    };
    let s4 = match chain_step(s3, KeyEvent::Minted("fresh-key".to_string())) {
        KeyOutcome::Next(s, KeyRequest::StoreKeychain(k)) => {
            assert_eq!(k, "fresh-key");
            s
        },
        _ => panic!("the minted key must be offered to the credential store"),
    };
    match chain_step(s4, KeyEvent::KeychainStored(true)) {
        KeyOutcome::Done(key) => assert_eq!(key, "fresh-key"),
        _ => panic!("a stored key resolves the chain"),
    }
}

#[test]
fn test_chain_store_failure_falls_back_to_file() {
    let state = ChainState::AwaitKeychainStore("minted".to_string());
    let s = match chain_step(state, KeyEvent::KeychainStored(false)) {
        KeyOutcome::Next(s, KeyRequest::WriteKeyFile(k)) => {
            assert_eq!(k, "minted");
            s
        },
        _ => panic!("a failed store must write the key file"),
    };
    match chain_step(s, KeyEvent::FileWritten(None)) {
        KeyOutcome::Done(key) => assert_eq!(key, "minted"),
        _ => panic!("the written key resolves the chain"),
    }
}

#[test]
fn test_chain_headless_uses_file_instead_of_prompt() {
    let state = ChainState::AwaitHeadless;
    match chain_step(state, KeyEvent::Headless(true)) {
        KeyOutcome::Next(_, KeyRequest::MintKey) => {},
        _ => panic!("a headless process mints a file key instead of prompting"),
    }
    match chain_step(ChainState::AwaitHeadless, KeyEvent::Headless(false)) {
        KeyOutcome::Next(_, KeyRequest::PromptPassphrase) => {},
        _ => panic!("an interactive process is prompted"),
    }
}

#[test]
fn test_chain_empty_passphrase_rejected() {
    match chain_step(ChainState::AwaitPrompt, KeyEvent::Prompted(Ok("".to_string()))) {
        KeyOutcome::Fail(Error::KeySource(_)) => {},
        _ => panic!("an empty passphrase must be rejected"),
    }
    match chain_step(ChainState::AwaitPrompt, KeyEvent::Prompted(Ok("pass".to_string()))) {
        KeyOutcome::Done(key) => assert_eq!(key, "pass"),
        _ => panic!("a non-empty passphrase resolves the chain"),
    }
}

#[test]
fn test_minted_master_key_shape() {
    let key = mint_master_key();
    assert_eq!(key.len(), 32);
    assert!(key.chars().all(|c| c.is_ascii_alphanumeric()));
}

#[test]
fn test_ssh_session_forces_file_fallback() {
    assert!(should_use_file_fallback(true));
}
