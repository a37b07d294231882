[package]
name = "mule_cli"
version = "0.1.0"
edition = "2021"
publish = false

[dependencies]
anyhow = "1"
bincode = "=1.3.3"
clap = { version = "=4.4.18", features = ["derive"] }
solana-program = "=1.18.26"
solana-sdk = "=1.18.26"
