pub mod cli;
pub mod error;
pub mod text;
pub mod crypto;
pub mod sanitize;
pub mod secret_gen;
pub mod exec;
pub mod vault;
pub mod envfile;
pub mod store;
pub mod keychain;

