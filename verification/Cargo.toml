[package]
name = "srbnfs"
version = "0.1.0"
edition = "2021"
publish = false

[dependencies]
base64 = "*"
clap = "*"
flume = "*"
log = "*"
pretty_env_logger = "*"

[dev-dependencies]
serde_json = "*"
