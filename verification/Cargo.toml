[package]
name = "stellaris_hunter_scan"
version = "0.1.0"
edition = "2021"
publish = false

[dependencies]
zip = { version = "=2.6.1", default-features = false, features = ["deflate"] }
serde = { version = "=1.0.229", features = ["derive"] }
serde_json = "=1.0.154"
rusqlite = { version = "*", features = ["bundled"] }
walkdir = "2"
