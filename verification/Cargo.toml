[package]
name = "hivemind"
version = "0.1.0"
edition = "2021"
publish = false

[dependencies]
chitchat = "*"
tokio = { version = "*", features = ["full"] }
dashmap = "*"
serde = { version = "*", features = ["derive"] }
serde_yaml = "*"
clap = { version = "*", features = ["derive"] }
uuid = { version = "*", features = ["v4"] }
anyhow = "*"
thiserror = "*"
parking_lot = "*"
