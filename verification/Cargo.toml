[package]
name = "weixin_agent"
version = "0.1.0"
edition = "2021"
publish = false

[dependencies]
base64 = "0.22"
rand = "0.9"
serde = { version = "1", features = ["derive"] }
serde_json = "1"
hound = "3.5"
silk-rs = "*"
reqwest = { version = "0.12", default-features = false, features = ["rustls-tls"] }
tokio = { version = "1", features = ["rt", "macros", "time", "fs", "net", "io-util", "sync"] }
tokio-util = "0.7"
tracing = "0.1"

[dev-dependencies]
regex = "1"
