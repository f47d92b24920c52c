[package]
name = "cln_tracker"
version = "0.1.0"
edition = "2021"
publish = false

[dependencies]
anyhow = "1"
cln-plugin = "*"
cln-rpc = "*"
hex = "0.4"
log = "0.4"
miniscript = "*"
serde = { version = "1", features = ["derive"] }
serde_json = "1"
tokio = { version = "1", features = ["io-std", "macros", "rt", "sync", "time"] }
