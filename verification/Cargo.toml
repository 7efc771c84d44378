[package]
name = "session_import"
version = "0.1.0"
edition = "2021"
publish = false

[dependencies]
anyhow = "=1.0.104"
chrono = "=0.4.45"
serde_json = "=1.0.154"
tokio = { version = "=1.54.1", features = ["io-util", "net", "process", "rt", "sync", "time"] }
