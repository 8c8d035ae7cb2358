[package]
name = "pelagos"
version = "0.1.0"
edition = "2021"
publish = false

[dependencies]
serde = { version = "1", features = ["derive"] }
serde_json = "1"
tokio = { version = "1", features = ["full"] }
async-trait = "0.1"
thiserror = "*"
log = "0.4"
env_logger = "*"
dirs = "*"
which = "*"
uuid = { version = "1", features = ["v4"] }
portable-pty = "*"
