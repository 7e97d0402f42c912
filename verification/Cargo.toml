[package]
name = "bitcoin-node"
version = "0.1.0"
edition = "2021"
publish = false

[dependencies]
bitcoin = { version = "=0.32.102", features = ["serde"] }
bitcoinkernel = "=0.0.18"
clap = { version = "=4.6.7", features = ["derive"] }
dns-lookup = "=2.1.1"
env_logger = "=0.11.11"
log = "=0.4.35"
redb = "=2.6.4"
serde = { version = "=1.0.229", features = ["derive"] }
serde_json = "=1.0.154"
tokio = { version = "=1.54.1", features = ["full"] }
