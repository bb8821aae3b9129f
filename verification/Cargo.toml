[package]
name = "rabbitink"
version = "0.1.0"
edition = "2021"
publish = false

[dependencies]
anyhow = "1"
clap = { version = "4", features = ["derive"] }
env_logger = "0.11"
log = "0.4"
rusb = { version = "0.9", features = ["vendored"] }
signal-hook = "0.3"
