[package]
name = "beacon_state_proof"
version = "0.1.0"
edition = "2021"
publish = false

[dependencies]
ethereum_hashing = "*"
sha2 = "0.10"
reqwest = { version = "0.11", default-features = false }
serde = { version = "1", features = ["derive"] }

[dev-dependencies]
tree_hash = "*"
