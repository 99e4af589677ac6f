[package]
name = "murkdown"
version = "0.1.0"
edition = "2021"
publish = false

[dependencies]
base64 = "0.22"
clap = { version = "4", features = ["derive"] }
data-url = "0.3"
either = "1"
env_logger = "0.11"
futures = "0.3"
htmlize = "1"
log = { version = "0.4", features = ["kv"] }
mime2ext = "0.1"
regex = "1"
shlex = "1"
thiserror = "1"
tokio = { version = "1", features = ["full"] }
tokio-stream = { version = "0.1", features = ["io-util"] }
walkdir = "2"
