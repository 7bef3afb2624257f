[package]
name = "sbpf_debugger"
version = "0.1.0"
edition = "2021"
publish = false

[dependencies]
anyhow = "1"
clap = { version = "=4.6.7", features = ["derive"] }
dirs = "*"
gimli = "=0.34.0"
memmap2 = "=0.9.12"
object = "=0.40.0"
serde = { version = "=1.0.229", features = ["derive"] }
serde_json = "=1.0.154"
serde_yaml = "0.9"
solana-program-runtime = "=3.1.14"
solana-sbpf = "=0.26.0"
solana-sdk = "=3.0.0"
tempfile = "3"
thiserror = "=2.0.21"
