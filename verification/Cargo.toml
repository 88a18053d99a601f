[package]
name = "intent_core"
version = "0.1.0"
edition = "2021"
publish = false

[dependencies]
base64 = "*"
blake3 = "*"
dirs-next = "*"
once_cell = "*"
rusqlite = { version = "*", features = ["bundled"] }
semver = "*"
serde = { version = "*", features = ["derive"] }
serde_json = "*"
tokio = { version = "*", features = ["rt", "rt-multi-thread", "time", "sync"] }
urlencoding = "*"
uuid = { version = "*", features = ["v4"] }
