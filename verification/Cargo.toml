[package]
name = "multisig"
version = "0.1.0"
edition = "2021"
publish = false

[dependencies]
solana-program = "1.18"
solana-sdk = "1.18"
serde = { version = "1", features = ["derive"] }
uuid = { version = "1", features = ["v4"] }

[dev-dependencies]
borsh = "0.10"
