[package]
name = "binance_ws"
version = "0.1.0"
edition = "2021"
publish = false

[dependencies]
crossterm = "0.27"
futures-util = "0.3"
ratatui = "0.26"
reqwest = { version = "0.11", default-features = false, features = ["json", "rustls-tls"] }
rusqlite = "0.31"
serde_json = "1"
tokio = { version = "1", features = ["full"] }
tokio-tungstenite = { version = "0.21", features = ["rustls-tls-webpki-roots"] }
url = "2"
