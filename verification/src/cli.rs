use vstd::prelude::*;

verus! {

// The command-line surface as plain data.  The binary's argument parser
// builds these values; everything they trigger is a call into the library.

/// A full invocation: global flags and the chosen command.
pub struct Cli {
    /// Suppress informational output.
    pub quiet: bool,
    /// The command to run.
    pub command: Commands,
}

/// The commands of the tool.
pub enum Commands {
    /// Generate and store a new random secret.
    Create { name: String, length: usize, charset: String, force: bool },
    /// Import a secret value from clipboard or standard input.
    Import { name: String, clipboard: bool, replace: bool },
    /// List stored secret names, optionally one bucket only.
    List { bucket: Option<String> },
    /// Permanently delete a secret.
    Delete { name: String },
    /// Retrieve one secret value, to the clipboard or displayed.
    Get { name: String, clipboard: bool, unsafe_display: bool },
    /// Run a command with secrets injected and its output redacted.
    Exec { env_secrets: Vec<String>, command: Vec<String> },
    /// Write a secret into a file.
    Inject { name: String, file: String, placeholder: Option<String>, env_format: bool },
    /// Bulk `.env` import and export.
    Env { action: EnvAction },
}

/// The `.env` bulk actions.
pub enum EnvAction {
    /// Write secrets to a `.env` file.
    Export { file: String, names: Vec<String>, all: bool },
    /// Read secrets from a `.env` file into the vault.
    Import { file: String },
}

} // verus!
