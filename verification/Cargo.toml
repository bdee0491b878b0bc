[package]
name = "arkeles"
version = "0.1.0"
edition = "2021"
publish = false

[dependencies]
serde = { version = "1", features = ["derive"] }
serde_json = "1"
serde_yaml = "0.9"
sha2 = "0.10"
rusqlite = { version = "0.32", features = ["bundled"] }
tungstenite = "0.24"
notify = "6"
thiserror = "1"
