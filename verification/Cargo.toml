[package]
name = "orderbook"
version = "0.1.0"
edition = "2021"
publish = false

[dependencies]
rand = "0.8"
serde = { version = "1", features = ["derive"] }
serde_json = "1"
tungstenite = { version = "0.21", features = ["rustls-tls-webpki-roots"] }
url = "2"
env_logger = "0.11"
