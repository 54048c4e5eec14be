[package]
name = "linux_agent"
version = "0.1.0"
edition = "2021"
publish = false

[dependencies]
anyhow = "1"
aya = "*"
aya-log = "*"
env_logger = "*"
log = "0.4"
tokio = { version = "1", features = ["macros", "rt-multi-thread", "sync", "time"] }
