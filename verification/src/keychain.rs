use vstd::prelude::*;

use crate::error::Error;
use crate::text::{chars_to_string, str_to_chars, trim_chars, trim_spec};

verus! {

// Resolution of the master key through a strict, ordered fallback chain:
// process environment, optionally forced key file, OS credential store,
// key file, interactive prompt.  The decisions form a pure transition
// function from state and observed event to the next action; the caller
// performs the actions (environment reads, file probes, prompts) and feeds
// the outcomes back in.

/// The states of the key-resolution chain, in the order the chain visits
/// them.
pub enum ChainState {
    /// Waiting for the passphrase override from the process environment.
    AwaitEnvPass,
    /// Waiting for the file-storage toggle from the process environment.
    AwaitEnvUseFile,
    /// File storage was requested explicitly; waiting for the file probe.
    AwaitForcedFile,
    /// Waiting for the credential-store probe.
    AwaitKeychain,
    /// The credential store had no entry; waiting for a freshly minted key.
    AwaitMintForKeychain,
    /// Waiting for the attempt to store the minted key in the credential
    /// store.
    AwaitKeychainStore(String),
    /// The credential store is unavailable; waiting for the file probe.
    AwaitFileFallback,
    /// Waiting to learn whether the process runs headlessly.
    AwaitHeadless,
    /// A fresh key is needed for the file tier; waiting for it.
    AwaitMintForFile,
    /// Waiting for the key file to be written.
    AwaitFileWrite(String),
    /// Waiting for an interactively entered passphrase.
    AwaitPrompt,
}

/// What the caller must do next.
pub enum KeyRequest {
    /// Read the passphrase override variable from the environment.
    ReadEnvPassphrase,
    /// Read the file-storage toggle from the environment.
    ReadEnvUseFile,
    /// Probe the master-key file: its permission bits and content.
    ReadKeyFile,
    /// Probe the OS credential store for the stored key.
    QueryKeychain,
    /// Mint a fresh random key.
    MintKey,
    /// Try to store this key in the OS credential store.
    StoreKeychain(String),
    /// Write this key to the permission-restricted key file.
    WriteKeyFile(String),
    /// Find out whether the process runs headlessly.
    CheckHeadless,
    /// Prompt interactively for a passphrase, echo suppressed.
    PromptPassphrase,
}

/// What probing the master-key file found.
pub enum FileProbe {
    /// No file at the key path.
    Missing,
    /// The file's permission bits and its raw content.
    Found(u32, String),
    /// The file could not be read.
    Unreadable(String),
}

/// What probing the OS credential store found.
pub enum KeychainProbe {
    /// The stored key.
    Found(String),
    /// The store works but holds no entry.
    Missing,
    /// The store cannot be used.
    Unavailable(String),
}

/// The outcome of an action, fed back into the chain.
pub enum KeyEvent {
    /// The passphrase override variable, when set.
    EnvPassphrase(Option<String>),
    /// Whether the file-storage toggle is set.
    EnvUseFile(bool),
    /// The master-key file probe.
    KeyFile(FileProbe),
    /// The credential-store probe.
    Keychain(KeychainProbe),
    /// A freshly minted key.
    Minted(String),
    /// Whether the credential store accepted the key.
    KeychainStored(bool),
    /// `None` when the key file was written; the error otherwise.
    FileWritten(Option<String>),
    /// Whether the process runs headlessly.
    Headless(bool),
    /// The prompted passphrase, or the prompt's failure.
    Prompted(Result<String, String>),
}

/// What the chain decides after one event.
pub enum KeyOutcome {
    /// Continue in this state, after the caller performs this request.
    Next(ChainState, KeyRequest),
    /// The resolved master key.
    Done(String),
    /// The chain failed; no key is available.
    Fail(Error),
}

/// Accept or reject the master-key file.  A file readable by group or
/// other is rejected with a `KeySource` error whatever it holds; an
/// owner-only file yields its content, trimmed of surrounding whitespace.
pub fn accept_key_file(mode: u32, content: &str) -> (r: Result<String, Error>)
    ensures
        (mode & 0o077 != 0) <==> (r matches Err(e) && e is KeySource),
        r matches Err(e) ==> (e matches Error::KeySource(m) && m@
            == "master key file has insecure permissions, expected 600"@),
        r matches Ok(k) ==> mode & 0o077 == 0 && k@ == trim_spec(content@),
{
    if mode & 0o077 != 0 {
        Err(
            Error::KeySource(
                String::from_str("master key file has insecure permissions, expected 600"),
            ),
        )
    } else {
        let chars = str_to_chars(content);
        let trimmed = trim_chars(&chars);
        Ok(chars_to_string(&trimmed))
    }
}

/// Where the chain starts: with the environment override, the tier that
/// wins over every other source.
pub fn chain_start() -> (r: (ChainState, KeyRequest))
    ensures
        r.0 is AwaitEnvPass,
        r.1 is ReadEnvPassphrase,
{
    (ChainState::AwaitEnvPass, KeyRequest::ReadEnvPassphrase)
}

/// One step of the key-resolution chain.  The contract pins every
/// transition, so the chain is a deterministic function of the observed
/// environment: an environment override is used verbatim; the forced file
/// tier reads or creates the key file; the credential store is consulted
/// next, minting and storing a fresh key on a miss and falling through to
/// the file on failure; a headless process uses the file tier instead of
/// prompting; the prompt is the last resort and rejects an empty
/// passphrase.  An insecure key file stops the chain with a `KeySource`
/// error on every path that reads it.
pub fn chain_step(state: ChainState, event: KeyEvent) -> (r: KeyOutcome)
    ensures
        state is AwaitEnvPass ==> (event matches KeyEvent::EnvPassphrase(Some(k)) ==> (r matches
            KeyOutcome::Done(key) && key@ == k@)),
        state is AwaitEnvPass ==> (event matches KeyEvent::EnvPassphrase(None) ==> (r matches
            KeyOutcome::Next(s2, q) && s2 is AwaitEnvUseFile && q is ReadEnvUseFile)),
        state is AwaitEnvUseFile ==> (event matches KeyEvent::EnvUseFile(true) ==> (r matches
            KeyOutcome::Next(s2, q) && s2 is AwaitForcedFile && q is ReadKeyFile)),
        state is AwaitEnvUseFile ==> (event matches KeyEvent::EnvUseFile(false) ==> (r matches
            KeyOutcome::Next(s2, q) && s2 is AwaitKeychain && q is QueryKeychain)),
        state is AwaitForcedFile ==> (event matches KeyEvent::KeyFile(
            FileProbe::Found(mode, content),
        ) ==> (if mode & 0o077 == 0 {
            r matches KeyOutcome::Done(key) && key@ == trim_spec(content@)
        } else {
            {
                &&& r matches KeyOutcome::Fail(e)
                &&& e matches Error::KeySource(m)
                &&& m@ == "master key file has insecure permissions, expected 600"@
            }
        })),
        state is AwaitForcedFile ==> (event matches KeyEvent::KeyFile(FileProbe::Missing) ==> (
        r matches KeyOutcome::Next(s2, q) && s2 is AwaitMintForFile && q is MintKey)),
        state is AwaitForcedFile ==> (event matches KeyEvent::KeyFile(FileProbe::Unreadable(m))
            ==> (r matches KeyOutcome::Fail(e) && e is Io)),
        state is AwaitKeychain ==> (event matches KeyEvent::Keychain(KeychainProbe::Found(k)) ==> (
        r matches KeyOutcome::Done(key) && key@ == k@)),
        state is AwaitKeychain ==> (event matches KeyEvent::Keychain(KeychainProbe::Missing) ==> (
        r matches KeyOutcome::Next(s2, q) && s2 is AwaitMintForKeychain && q is MintKey)),
        state is AwaitKeychain ==> (event matches KeyEvent::Keychain(KeychainProbe::Unavailable(m))
            ==> (r matches KeyOutcome::Next(s2, q) && s2 is AwaitFileFallback
            && q is ReadKeyFile)),
        state is AwaitMintForKeychain ==> (event matches KeyEvent::Minted(k) ==> ({
            &&& r matches KeyOutcome::Next(s2, q)
            &&& s2 matches ChainState::AwaitKeychainStore(k2)
            &&& k2@ == k@
            &&& q matches KeyRequest::StoreKeychain(k3)
            &&& k3@ == k@
        })),
        state matches ChainState::AwaitKeychainStore(k) ==> (event matches
            KeyEvent::KeychainStored(true) ==> (r matches KeyOutcome::Done(key) && key@ == k@)),
        state matches ChainState::AwaitKeychainStore(k) ==> (event matches
            KeyEvent::KeychainStored(false) ==> ({
            &&& r matches KeyOutcome::Next(s2, q)
            &&& s2 matches ChainState::AwaitFileWrite(k2)
            &&& k2@ == k@
            &&& q matches KeyRequest::WriteKeyFile(k3)
            &&& k3@ == k@
        })),
        state is AwaitFileFallback ==> (event matches KeyEvent::KeyFile(
            FileProbe::Found(mode, content),
        ) ==> (if mode & 0o077 == 0 {
            r matches KeyOutcome::Done(key) && key@ == trim_spec(content@)
        } else {
            {
                &&& r matches KeyOutcome::Fail(e)
                &&& e matches Error::KeySource(m)
                &&& m@ == "master key file has insecure permissions, expected 600"@
            }
        })),
        state is AwaitFileFallback ==> (event matches KeyEvent::KeyFile(FileProbe::Missing) ==> (
        r matches KeyOutcome::Next(s2, q) && s2 is AwaitHeadless && q is CheckHeadless)),
        state is AwaitFileFallback ==> (event matches KeyEvent::KeyFile(FileProbe::Unreadable(m))
            ==> (r matches KeyOutcome::Next(s2, q) && s2 is AwaitHeadless
            && q is CheckHeadless)),
        state is AwaitHeadless ==> (event matches KeyEvent::Headless(true) ==> (r matches
            KeyOutcome::Next(s2, q) && s2 is AwaitMintForFile && q is MintKey)),
        state is AwaitHeadless ==> (event matches KeyEvent::Headless(false) ==> (r matches
            KeyOutcome::Next(s2, q) && s2 is AwaitPrompt && q is PromptPassphrase)),
        state is AwaitMintForFile ==> (event matches KeyEvent::Minted(k) ==> ({
            &&& r matches KeyOutcome::Next(s2, q)
            &&& s2 matches ChainState::AwaitFileWrite(k2)
            &&& k2@ == k@
            &&& q matches KeyRequest::WriteKeyFile(k3)
            &&& k3@ == k@
        })),
        state matches ChainState::AwaitFileWrite(k) ==> (event matches KeyEvent::FileWritten(None)
            ==> (r matches KeyOutcome::Done(key) && key@ == k@)),
        state matches ChainState::AwaitFileWrite(k) ==> (event matches KeyEvent::FileWritten(
            Some(m),
        ) ==> (r matches KeyOutcome::Fail(e) && e is Io)),
        state is AwaitPrompt ==> (event matches KeyEvent::Prompted(Ok(p)) ==> (if p@.len() == 0 {
            {
                &&& r matches KeyOutcome::Fail(e)
                &&& e matches Error::KeySource(m)
                &&& m@ == "passphrase cannot be empty"@
            }
        } else {
            r matches KeyOutcome::Done(key) && key@ == p@
        })),
        state is AwaitPrompt ==> (event matches KeyEvent::Prompted(Err(m)) ==> (r matches
            KeyOutcome::Fail(e) && e is Io)),
        r matches KeyOutcome::Fail(e) ==> (e matches Error::KeySource(m) ==> (m@
            == "master key file has insecure permissions, expected 600"@ || m@
            == "passphrase cannot be empty"@ || m@
            == "key resolution saw an out-of-order event"@)),
{
    match (state, event) {
        (ChainState::AwaitEnvPass, KeyEvent::EnvPassphrase(Some(k))) => KeyOutcome::Done(k),
        (ChainState::AwaitEnvPass, KeyEvent::EnvPassphrase(None)) => KeyOutcome::Next(
            ChainState::AwaitEnvUseFile,
            KeyRequest::ReadEnvUseFile,
        ),
        (ChainState::AwaitEnvUseFile, KeyEvent::EnvUseFile(true)) => KeyOutcome::Next(
            ChainState::AwaitForcedFile,
            KeyRequest::ReadKeyFile,
        ),
        (ChainState::AwaitEnvUseFile, KeyEvent::EnvUseFile(false)) => KeyOutcome::Next(
            ChainState::AwaitKeychain,
            KeyRequest::QueryKeychain,
        ),
        (ChainState::AwaitForcedFile, KeyEvent::KeyFile(FileProbe::Found(mode, content))) => {
            match accept_key_file(mode, content.as_str()) {
                Ok(key) => KeyOutcome::Done(key),
                Err(e) => KeyOutcome::Fail(e),
            }
        },
        (ChainState::AwaitForcedFile, KeyEvent::KeyFile(FileProbe::Missing)) => KeyOutcome::Next(
            ChainState::AwaitMintForFile,
            KeyRequest::MintKey,
        ),
        (ChainState::AwaitForcedFile, KeyEvent::KeyFile(FileProbe::Unreadable(m))) => {
            KeyOutcome::Fail(Error::Io(m))
        },
        (ChainState::AwaitKeychain, KeyEvent::Keychain(KeychainProbe::Found(k))) => {
            KeyOutcome::Done(k)
        },
        (ChainState::AwaitKeychain, KeyEvent::Keychain(KeychainProbe::Missing)) => {
            KeyOutcome::Next(ChainState::AwaitMintForKeychain, KeyRequest::MintKey)
        },
        (ChainState::AwaitKeychain, KeyEvent::Keychain(KeychainProbe::Unavailable(_m))) => {
            KeyOutcome::Next(ChainState::AwaitFileFallback, KeyRequest::ReadKeyFile)
        },
        (ChainState::AwaitMintForKeychain, KeyEvent::Minted(k)) => {
            let stored = String::from_str(k.as_str());
            KeyOutcome::Next(
                ChainState::AwaitKeychainStore(stored),
                KeyRequest::StoreKeychain(k),
            )
        },
        (ChainState::AwaitKeychainStore(k), KeyEvent::KeychainStored(true)) => KeyOutcome::Done(k),
        (ChainState::AwaitKeychainStore(k), KeyEvent::KeychainStored(false)) => {
            let kept = String::from_str(k.as_str());
            KeyOutcome::Next(ChainState::AwaitFileWrite(kept), KeyRequest::WriteKeyFile(k))
        },
        (ChainState::AwaitFileFallback, KeyEvent::KeyFile(FileProbe::Found(mode, content))) => {
            match accept_key_file(mode, content.as_str()) {
                Ok(key) => KeyOutcome::Done(key),
                Err(e) => KeyOutcome::Fail(e),
            }
        },
        (ChainState::AwaitFileFallback, KeyEvent::KeyFile(FileProbe::Missing)) => KeyOutcome::Next(
            ChainState::AwaitHeadless,
            KeyRequest::CheckHeadless,
        ),
        (ChainState::AwaitFileFallback, KeyEvent::KeyFile(FileProbe::Unreadable(_m))) => {
            KeyOutcome::Next(ChainState::AwaitHeadless, KeyRequest::CheckHeadless)
        },
        (ChainState::AwaitHeadless, KeyEvent::Headless(true)) => KeyOutcome::Next(
            ChainState::AwaitMintForFile,
            KeyRequest::MintKey,
        ),
        (ChainState::AwaitHeadless, KeyEvent::Headless(false)) => KeyOutcome::Next(
            ChainState::AwaitPrompt,
            KeyRequest::PromptPassphrase,
        ),
        (ChainState::AwaitMintForFile, KeyEvent::Minted(k)) => {
            let kept = String::from_str(k.as_str());
            KeyOutcome::Next(ChainState::AwaitFileWrite(kept), KeyRequest::WriteKeyFile(k))
        },
        (ChainState::AwaitFileWrite(k), KeyEvent::FileWritten(None)) => KeyOutcome::Done(k),
        (ChainState::AwaitFileWrite(_k), KeyEvent::FileWritten(Some(m))) => KeyOutcome::Fail(
            Error::Io(m),
        ),
        (ChainState::AwaitPrompt, KeyEvent::Prompted(Ok(p))) => {
            if p.unicode_len() == 0 {
                KeyOutcome::Fail(Error::KeySource(String::from_str("passphrase cannot be empty")))
            } else {
                KeyOutcome::Done(p)
            }
        },
        (ChainState::AwaitPrompt, KeyEvent::Prompted(Err(m))) => KeyOutcome::Fail(Error::Io(m)),
        _ => KeyOutcome::Fail(
            Error::KeySource(String::from_str("key resolution saw an out-of-order event")),
        ),
    }
}

/// The number of characters in a freshly minted master key.
pub const MASTER_KEY_LENGTH: usize = 32;

/// Mint a fresh master key: random, alphanumeric, of the standard length.
pub fn mint_master_key() -> (r: String)
    ensures
        r@.len() == MASTER_KEY_LENGTH,
        forall|i: int|
            0 <= i < r@.len() ==> crate::secret_gen::in_charset(
                #[trigger] r@[i],
                crate::secret_gen::Charset::Alphanumeric,
            ),
{
    crate::secret_gen::generate(MASTER_KEY_LENGTH, crate::secret_gen::Charset::Alphanumeric)
}

/// Declares keyring's `Entry` so that a credential-store handle can pass
/// between the wrappers below; the value itself stays opaque.
#[verifier::external_type_specification]
#[verifier::external_body]
pub struct ExEntry(keyring::Entry);

/// Relies on keyring's `Entry::new`: a handle for this service and user in
/// the platform credential store.  Whether it can be built depends on the
/// platform, so nothing is promised.
#[verifier::external_body]
fn entry_new(service: &str, user: &str) -> Result<keyring::Entry, String> {
    keyring::Entry::new(service, user).map_err(|e| e.to_string())
}

/// Relies on keyring's `Entry::get_password`: the stored credential, with
/// `NoEntry` meaning none is stored.  The result depends on the machine's
/// credential store, so nothing is promised.
#[verifier::external_body]
fn entry_get_password(entry: &keyring::Entry) -> Result<Option<String>, String> {
    match entry.get_password() {
        Ok(p) => Ok(Some(p)),
        Err(keyring::Error::NoEntry) => Ok(None),
        Err(e) => Err(e.to_string()),
    }
}

/// Relies on keyring's `Entry::set_password`: stores the credential.  The
/// result depends on the machine's credential store, so nothing is
/// promised.
#[verifier::external_body]
fn entry_set_password(entry: &keyring::Entry, key: &str) -> Result<(), String> {
    entry.set_password(key).map_err(|e| e.to_string())
}

/// Relies on keyring's `Entry::delete_credential`: removes the credential.
/// The result depends on the machine's credential store, so nothing is
/// promised.
#[verifier::external_body]
fn entry_delete(entry: &keyring::Entry) -> Result<(), String> {
    entry.delete_credential().map_err(|e| e.to_string())
}

/// Probe the OS credential store for the master key: the stored key, a
/// miss, or an unusable store.
pub fn keychain_probe() -> (r: KeychainProbe) {
    match entry_new("secret-agent", "master-key") {
        Err(m) => KeychainProbe::Unavailable(m),
        Ok(entry) => match entry_get_password(&entry) {
            Ok(Some(k)) => KeychainProbe::Found(k),
            Ok(None) => KeychainProbe::Missing,
            Err(m) => KeychainProbe::Unavailable(m),
        },
    }
}

/// Try to store the master key in the OS credential store.
pub fn keychain_store(key: &str) -> (stored: bool) {
    match entry_new("secret-agent", "master-key") {
        Err(_) => false,
        Ok(entry) => match entry_set_password(&entry, key) {
            Ok(u) => {
                let _ = u;
                true
            },
            Err(_) => false,
        },
    }
}

/// Best-effort removal of the master key from the OS credential store.
pub fn remove_keychain_key() {
    match entry_new("secret-agent", "master-key") {
        Err(_) => {},
        Ok(entry) => {
            let _ = entry_delete(&entry);
        },
    }
}

/// Relies on atty's `is(Stream::Stdin)`: whether standard input is a
/// terminal.  The result depends on how the process was started, so
/// nothing is promised.
#[verifier::external_body]
fn stdin_is_tty() -> bool {
    atty::is(atty::Stream::Stdin)
}

/// Whether the file tier should be used instead of an interactive prompt:
/// standard input is no terminal, or the process runs in a remote session.
pub fn should_use_file_fallback(ssh_tty: bool) -> (r: bool)
    ensures
        ssh_tty ==> r,
{
    !stdin_is_tty() || ssh_tty
}

/// Relies on rpassword's `prompt_password`: reads a line from the terminal
/// with echo suppressed.  The result depends on the operator, so nothing
/// is promised.
#[verifier::external_body]
fn prompt_password_raw(prompt: &str) -> Result<String, String> {
    rpassword::prompt_password(prompt).map_err(|e| e.to_string())
}

/// Prompt interactively for a passphrase, echo suppressed, packaged as the
/// chain event that [`chain_step`] expects; the chain itself rejects an
/// empty passphrase.
pub fn prompt_passphrase_event() -> (r: KeyEvent)
    ensures
        r is Prompted,
{
    KeyEvent::Prompted(prompt_password_raw("Passphrase: "))
}

/// Relies on dirs' `home_dir`: the user's home directory, as text.  The
/// result depends on the machine, so nothing is promised.
#[verifier::external_body]
fn home_dir_string() -> Option<String> {
    dirs::home_dir().map(|p| p.to_string_lossy().into_owned())
}

/// The fixed per-user path of the master-key file: `.secret-agent/master.key`
/// under the home directory.
pub fn get_key_file_path() -> (r: Result<String, Error>)
    ensures
        r matches Ok(p) ==> exists|h: Seq<char>| p@ == h + "/.secret-agent/master.key"@,
        r matches Err(e) ==> e is Io,
{
    match home_dir_string() {
        None => Err(Error::Io(String::from_str("could not determine home directory"))),
        Some(home) => {
            let ghost hv = home@;
            let mut p = home;
            p.append("/.secret-agent/master.key");
            proof {
                assert(p@ == hv + "/.secret-agent/master.key"@);
            }
            Ok(p)
        },
    }
}

/// The fixed per-user path of the vault database:
/// `.secret-agent/vault.db` under the home directory.
pub fn get_vault_path() -> (r: Result<String, Error>)
    ensures
        r matches Ok(p) ==> exists|h: Seq<char>| p@ == h + "/.secret-agent/vault.db"@,
        r matches Err(e) ==> e is Io,
{
    match home_dir_string() {
        None => Err(Error::Io(String::from_str("could not determine home directory"))),
        Some(home) => {
            let ghost hv = home@;
            let mut p = home;
            p.append("/.secret-agent/vault.db");
            proof {
                assert(p@ == hv + "/.secret-agent/vault.db"@);
            }
            Ok(p)
        },
    }
}

} // verus!
