[package]
name = "chat_protocol"
version = "0.1.0"
edition = "2021"
publish = false

[dependencies]
rand = "0.8"
uuid = { version = "1", features = ["v4"] }
tokio = { version = "1", features = ["rt-multi-thread", "macros", "sync", "io-util", "fs"] }
log = "0.4"
env_logger = "0.10"
toml = "0.8"
serde = { version = "1", features = ["derive"] }
thiserror = "1"
machineid-rs = "1.2"
