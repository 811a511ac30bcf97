[package]
name = "creator_event_manager"
version = "0.1.0"
edition = "2021"
publish = false

[dependencies]
soroban-sdk = "25"
ed25519-dalek = "=2.2.0"

[dev-dependencies]
soroban-sdk = { version = "25", features = ["testutils"] }
