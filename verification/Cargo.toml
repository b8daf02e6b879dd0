[package]
name = "orderbook_heatmap"
version = "0.1.0"
edition = "2021"
publish = false

[dependencies]
svg = "*"
serde = { version = "*", features = ["derive"] }
serde_json = "*"
log = "*"
env_logger = "*"
parking_lot = "*"
futures-util = "*"
tokio = { version = "*", features = ["rt-multi-thread", "sync", "time", "macros"] }
tokio-tungstenite = "*"
url = "*"
