[package]
name = "secret_agent"
version = "0.1.0"
edition = "2021"
publish = false

[dependencies]
age = "0.11"
anyhow = "1"
arboard = "3"
atty = "0.2"
base64 = "0.22"
chrono = "0.4"
clap = { version = "4", features = ["derive"] }
dirs = "6"
keyring = "3"
rand = "0.8"
rpassword = "7"
rusqlite = { version = "0.37", features = ["bundled"] }
urlencoding = "2"

[dev-dependencies]
tempfile = "3"
