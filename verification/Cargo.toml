[package]
name = "docbuf"
version = "0.1.0"
edition = "2021"
publish = false

[dependencies]
hex = "=0.4.3"
xxhash-rust = { version = "=0.8.19", features = ["xxh3", "const_xxh3"] }
regex = "=1.13.1"
uuid = "=1.29.0"
serde = { version = "=1.0.229", features = ["derive"] }
serde_bytes = "=0.11.19"
thiserror = "=1.0.69"
toml = "=0.8.23"
file-lock = "=2.1.11"
syn = { version = "=2.0.119", features = ["full"] }
quote = "=1.0.47"
proc-macro2 = "=1.0.107"
sha2 = "=0.10.9"
digest = "=0.10.7"
ed25519 = "=2.2.3"
logos = "0.14"
