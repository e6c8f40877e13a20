[package]
name = "codex_monitor"
version = "0.1.0"
edition = "2021"
publish = false

[dependencies]
git2 = { version = "0.20", default-features = false }
serde = { version = "1", features = ["derive"] }
serde_json = "1"
tauri = { version = "2", default-features = false, features = ["wry"] }
tokio = { version = "1", features = ["io-util", "process", "sync"] }
uuid = { version = "1", features = ["v4"] }
