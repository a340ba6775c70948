[package]
name = "cex_ping"
version = "0.1.0"
edition = "2021"
publish = false

[dependencies]
quick-protobuf = "0.8"
anyhow = "1"
clap = { version = "4", features = ["derive"] }
env_logger = "*"
log = "0.4"
futures = "0.3"
tokio = { version = "1", features = ["full"] }
