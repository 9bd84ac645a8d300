[package]
name = "bili_danmu"
version = "0.1.0"
edition = "2021"
publish = false

[dependencies]
brotli = "*"
serde_json = "1"
clap = { version = "4", features = ["derive"] }
env_logger = "*"
log = "0.4"
futures-util = { version = "0.3", features = ["sink"] }
reqwest = { version = "0.11", default-features = false, features = ["json", "rustls-tls"] }
tokio = { version = "1", features = ["full"] }
tokio-tungstenite = { version = "0.21", features = ["rustls-tls-webpki-roots"] }
