[package]
name = "bthint"
version = "0.1.0"
edition = "2021"
publish = false

[dependencies]
anyhow = "*"
futures = "*"
log = "*"
pretty_env_logger = "*"
tokio = { version = "*", features = ["process", "io-util", "time", "rt-multi-thread", "macros"] }
