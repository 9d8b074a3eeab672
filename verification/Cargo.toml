[package]
name = "gotw"
version = "0.1.0"
edition = "2021"
publish = false

[dependencies]
tungstenite = "=0.17.3"
url = "=2.5.8"
tokio = { version = "=1.54.1", features = ["net", "io-util"] }
env_logger = "=0.9.3"
log = "=0.4.35"
