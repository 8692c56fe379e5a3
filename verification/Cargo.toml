[package]
name = "btf2json"
version = "0.1.0"
edition = "2021"
publish = false

[dependencies]
anyhow = "1"
base64 = "*"
btf-rs = "*"
clap = { version = "4", features = ["derive"] }
env_logger = "*"
goblin = "*"
log = "0.4"
memmap = "0.7"
rust-crypto = "0.2"
rust-embed = "*"
serde = { version = "1", features = ["derive"] }
serde_json = "1"
