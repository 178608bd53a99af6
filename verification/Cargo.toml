[package]
name = "wtx"
version = "0.9.0"
edition = "2021"
publish = false

[dependencies]
anyhow = "1"
axum = "=0.8.9"
clap = { version = "4", features = ["derive"] }
clap_complete = "4"
crossterm = "0.28"
dirs = "6"
libc = "0.2"
ratatui = "=0.29.0"
reqwest = { version = "=0.12.28", default-features = false, features = ["json", "rustls-tls"] }
semver = "=1.0.28"
serde = { version = "1", features = ["derive"] }
serde_json = "=1.0.154"
sha2 = "0.10"
tokio = { version = "1", features = ["full"] }
unicode-width = "=0.2.0"
