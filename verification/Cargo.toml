[package]
name = "algo_trading"
version = "0.1.0"
edition = "2021"
publish = false

[dependencies]
crossbeam-channel = "*"
chrono = "*"
serde = { version = "*", features = ["derive"] }
serde_json = "*"
reqwest = { version = "*", features = ["blocking", "json"] }
tungstenite = "*"
mongodb = { version = "*", features = ["sync"] }
log = "*"
log4rs = "*"
config = "*"
