[package]
name = "netmon"
version = "0.1.0"
edition = "2021"
publish = false

[dependencies]
anyhow = "*"
clap = { version = "*", features = ["derive"] }
env_logger = "*"
pcap = "*"
serde = { version = "*", features = ["derive"] }
serde_json = "*"
toml = "*"
