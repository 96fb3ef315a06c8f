[package]
name = "agent-cid"
version = "0.1.0"
edition = "2021"
publish = false

[dependencies]
base64 = "0.22"
bs58 = "0.5"
chrono = "0.4"
data-encoding = "2"
ed25519-dalek = "2"
once_cell = "1"
reqwest = { version = "0.12", default-features = false, features = ["rustls-tls"] }
serde = { version = "1", features = ["derive"] }
serde_jcs = "0.1"
serde_json = "1"
sha2 = "0.10"
thiserror = "1"
