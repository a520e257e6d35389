[package]
name = "typing_store"
version = "0.1.0"
edition = "2021"
publish = false

[dependencies]
serde_json = "*"
rusqlite = { version = "*", features = ["bundled"] }
dirs = "*"
