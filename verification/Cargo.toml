[package]
name = "nft_market"
version = "0.1.0"
edition = "2021"
publish = false

[dependencies]
near-sdk = { version = "4.0.0", default-features = false }
serde = { version = "1", features = ["derive"] }
serde_json = "1"
