[package]
name = "cpu_miner_sv2"
version = "0.1.0"
edition = "2021"
publish = false

[dependencies]
stratum-apps = "=0.8.0"
tokio = { version = "=1.54.1", features = ["full"] }
tokio-util = "=0.7.20"
async-channel = "=1.9.0"
tracing = "=0.1.44"
clap = { version = "=4.6.7", features = ["derive"] }
serde = { version = "=1.0.229", features = ["derive"] }
toml = "=0.8.23"
