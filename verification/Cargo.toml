[package]
name = "live"
version = "0.1.0"
edition = "2021"
publish = false

[dependencies]
serde = "*"
serde_json = "*"
serde_yaml = "*"
toml = "*"
postcard = "*"
globset = "*"
notify = "*"
tokio = { version = "*", features = ["rt-multi-thread", "fs", "sync", "time"] }
tokio-stream = "*"
futures-util = "*"
async-trait = "*"
arc-swap = "*"
