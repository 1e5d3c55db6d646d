[package]
name = "sigil"
version = "0.1.0"
edition = "2021"
publish = false

[dependencies]
sha2 = "=0.10.9"
nostr-sdk = { version = "=0.42.0", features = ["nip04", "nip59"] }
tokio = { version = "=1.54.1", features = ["full"] }
serde = { version = "=1.0.229", features = ["derive"] }
serde_json = "=1.0.154"
thiserror = "=2.0.21"
tracing = "=0.1.44"
tracing-subscriber = "=0.3.23"
clap = { version = "=4.6.7", features = ["derive"] }
crossterm = "=0.28.1"
ratatui = "=0.29.0"
rusqlite = { version = "=0.32.1", features = ["bundled"] }
dirs = "=5.0.1"
reqwest = { version = "=0.12.28", default-features = false, features = ["multipart", "json", "rustls-tls"] }
qrcode = { version = "=0.14.1", default-features = false, features = ["svg"] }
