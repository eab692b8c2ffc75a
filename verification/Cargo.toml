[package]
name = "qliveplayer_lib"
version = "0.1.0"
edition = "2021"
publish = false

[dependencies]
url = "=2.5.8"
regex = "=1.13.1"
fancy-regex = "=0.20.0"
serde = "=1.0.229"
serde_json = "=1.0.154"
log = "=0.4.35"
env_logger = "=0.11.11"
uuid = "=1.29.1"
tokio = { version = "=1.54.1", features = ["rt", "net", "time", "io-util", "process"] }
reqwest = { version = "=0.13.5", features = ["json", "query"] }
