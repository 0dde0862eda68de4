[package]
name = "near_indexer_client"
version = "0.1.0"
edition = "2021"
publish = false

[dependencies]
near-indexer-primitives = "0.37.4"
near-kit = "0.18.0"
serde = { version = "1", features = ["derive"] }
serde_json = "1"
thiserror = "2"
