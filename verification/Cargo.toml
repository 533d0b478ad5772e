[package]
name = "chat_bridge"
version = "0.1.0"
edition = "2021"
publish = false

[dependencies]
chrono = "*"
uuid = { version = "*", features = ["v4"] }
regex = "*"
dirs = "*"
bollard = "*"
tokio = { version = "*", features = ["full"] }
futures-util = "*"
tar = "*"
async-trait = "*"
anyhow = "*"
serde = { version = "*", features = ["derive"] }
serde_yaml = "*"
