[package]
name = "kanjisabi"
version = "0.1.0"
edition = "2021"
publish = false

[dependencies]
anyhow = "*"
config = "*"
directories = "*"
env_logger = "*"
log = "*"
notify = "*"
reqwest = { version = "*", default-features = false }
serde = { version = "*", features = ["derive"] }
serde_json = "*"
serde_with = "*"
tokio = { version = "*", features = ["rt-multi-thread"] }
