use vstd::prelude::*;

verus! {

/// The error kinds of the vault library.
///
/// Every message-bearing variant carries the text that describes the failure;
/// no variant ever carries a secret's value, only names and diagnostics.
#[derive(Debug)]
pub enum Error {
    /// A secret with the given name is absent from the store.
    SecretNotFound(String),
    /// A create without an overwrite flag hit an existing name.
    SecretAlreadyExists(String),
    /// The name fails the identifier grammar.
    InvalidSecretName(String),
    /// Encrypting a value failed.
    Encryption(String),
    /// Decrypting a value failed: wrong passphrase or corrupt ciphertext.
    Decryption(String),
    /// Every tier of the key-resolution chain failed, or a key file was
    /// insecure.
    KeySource(String),
    /// The backing store reported a failure.
    Storage(String),
    /// Generic file or process input/output failure.
    Io(String),
}

impl Error {
    /// A single descriptive line for this error, for display by callers.
    pub fn message(&self) -> (msg: String)
        ensures
            match self {
                Error::SecretNotFound(n) => msg@ == "secret '"@ + n@ + "' not found"@,
                Error::SecretAlreadyExists(n) => msg@ == "secret '"@ + n@ + "' already exists"@,
                Error::InvalidSecretName(d) => msg@ == "invalid secret name: "@ + d@,
                Error::Encryption(d) => msg@ == "encryption error: "@ + d@,
                Error::Decryption(d) => msg@ == "decryption error: "@ + d@,
                Error::KeySource(d) => msg@ == "keychain error: "@ + d@,
                Error::Storage(d) => msg@ == "database error: "@ + d@,
                Error::Io(d) => msg@ == "io error: "@ + d@,
            },
    {
        match self {
            Error::SecretNotFound(n) => {
                let mut m = String::from_str("secret '");
                m.append(n.as_str());
                m.append("' not found");
                m
            },
            Error::SecretAlreadyExists(n) => {
                let mut m = String::from_str("secret '");
                m.append(n.as_str());
                m.append("' already exists");
                m
            },
            Error::InvalidSecretName(d) => {
                let mut m = String::from_str("invalid secret name: ");
                m.append(d.as_str());
                m
            },
            Error::Encryption(d) => {
                let mut m = String::from_str("encryption error: ");
                m.append(d.as_str());
                m
            },
            Error::Decryption(d) => {
                let mut m = String::from_str("decryption error: ");
                m.append(d.as_str());
                m
            },
            Error::KeySource(d) => {
                let mut m = String::from_str("keychain error: ");
                m.append(d.as_str());
                m
            },
            Error::Storage(d) => {
                let mut m = String::from_str("database error: ");
                m.append(d.as_str());
                m
            },
            Error::Io(d) => {
                let mut m = String::from_str("io error: ");
                m.append(d.as_str());
                m
            },
        }
    }
}

} // verus!
