[package]
name = "vault_core"
version = "0.1.0"
edition = "2021"
publish = false

[dependencies]
node-semver = "2"
sha2 = "0.10"
sha1 = "0.10"
base64 = "0.22"
hex = "0.4"
serde = { version = "1", features = ["derive"] }
serde_json = "1"
toml = "0.8"
tokio = { version = "1", features = ["full"] }
reqwest = { version = "0.12", default-features = false, features = ["json", "rustls-tls", "stream"] }
futures = "0.3"
flate2 = "1"
tar = "0.4"
clap = { version = "4", features = ["derive"] }
console = "0.15"
dirs = "5"
thiserror = "1"
anyhow = "1"
tracing = "0.1"
tracing-subscriber = { version = "0.3", features = ["env-filter"] }
landlock = "0.4"
libc = "0.2"
bytes = "1"
