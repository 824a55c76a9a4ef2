[package]
name = "circuit_proof"
version = "0.1.0"
edition = "2021"
publish = false

[dependencies]
hex = "0.4"
chrono = "0.4"
clap = { version = "4", features = ["derive"] }
serde = { version = "1", features = ["derive"] }
serde_json = "1"
bincode = "1"
risc0-zkvm = { version = "*", default-features = false }
