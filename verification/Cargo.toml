[package]
name = "iomust"
version = "0.1.0"
edition = "2021"
publish = false

[dependencies]
cpal = "0.13"
dasp = { version = "0.11", features = ["all"] }
env_logger = "0.9"
log = "0.4"
rand = "0.8"
ringbuf = "0.2"
serde = { version = "1", features = ["derive"] }
serde_json = "1"
tokio = { version = "1", features = ["io-util", "macros", "net", "rt-multi-thread", "sync"] }
