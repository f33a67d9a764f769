[package]
name = "stable_fs"
version = "0.1.0"
edition = "2021"
publish = false

[dependencies]
serde = { version = "1", features = ["derive"] }
serde_bytes = "0.11"
ciborium = "0.2"
ic-stable-structures = "0.5"
