[package]
name = "anystore"
version = "0.1.0"
edition = "2021"
publish = false

[dependencies]
serde = "1"
serde_json = "1"
tokio = { version = "1", features = ["rt", "sync", "time", "fs", "macros"] }
tokio-stream = "0.1"
futures = "0.3"
reqwest = { version = "0.12", default-features = false }
