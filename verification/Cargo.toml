[package]
name = "clipvault"
version = "0.1.0"
edition = "2021"
publish = false

[dependencies]
arboard = { version = "3", default-features = false }
blake3 = "1"
chrono = { version = "0.4", default-features = false, features = ["clock", "std"] }
log = "0.4"
rusqlite = { version = "*", features = ["bundled"] }
serde = { version = "1", features = ["derive"] }
serde_json = "1"
