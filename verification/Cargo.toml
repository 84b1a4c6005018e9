[package]
name = "charter"
version = "0.1.0"
edition = "2021"
publish = false

[dependencies]
anyhow = "=1.0.104"
bitcoin = "=0.32.102"
bitcoind-async-client = { version = "=0.16.1", features = ["raw_rpc"] }
clap = { version = "=4.6.7", features = ["derive"] }
hex = "=0.4.3"
nostr-sdk = "=0.44.1"
reqwest = { version = "=0.12.28", features = ["json"] }
serde = { version = "=1.0.229", features = ["derive"] }
serde_json = "=1.0.154"
sha2 = "=0.10.9"
tokio = { version = "=1.54.1", features = ["full"] }
tracing = "=0.1.44"
tracing-subscriber = "=0.3.23"
