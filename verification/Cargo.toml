[package]
name = "trade_server"
version = "0.1.0"
edition = "2021"
publish = false

[dependencies]
chrono = { version = "0.4", features = ["serde"] }
rand = "0.8"
regex = "1"
validator = "*"
serde = { version = "1", features = ["derive"] }
serde_json = "1"
tokio = { version = "1", features = ["full"] }
tokio-tungstenite = "0.21"
tokio-native-tls = "0.3"
native-tls = "0.2"
futures-util = "0.3"
if-addrs = "*"
lettre = "*"
yahoo_tick_grabber = "*"
