[package]
name = "miniproxy"
version = "0.1.0"
edition = "2021"
publish = false

[dependencies]
async-std = "1"
base64 = "0.13"
byteorder = "1"
clap = "2"
daemonize = "0.4"
env_logger = "0.7"
futures = "0.3"
httparse = "1"
log = "0.4"
rand = "0.7"
serde = { version = "1", features = ["derive"] }
serde_json = "1"
tokio = { version = "1", features = ["rt-multi-thread", "net", "io-util"] }
