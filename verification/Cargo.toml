[package]
name = "chat_core"
version = "0.1.0"
edition = "2021"
publish = false

[dependencies]
anyhow = "=1.0.104"
base64 = "=0.23.1"
dashmap = "=6.2.1"
oneshot = { version = "=0.2.1", features = ["std"] }
serde_json = "=1.0.151"
thiserror = "=2.0.21"
