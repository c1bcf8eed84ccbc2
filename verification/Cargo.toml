[package]
name = "fee_scan"
version = "0.1.0"
edition = "2021"
publish = false

[dependencies]
chrono = "=0.4.45"
solana-sdk = "1.18"
tokio = { version = "=1.53.2", features = ["macros", "rt-multi-thread"] }
