[package]
name = "tradebot"
version = "0.1.0"
edition = "2021"
publish = false

[dependencies]
serde = { version = "=1.0.229", features = ["derive"] }
uuid = { version = "=1.29.0", features = ["v4"] }
chrono = "=0.4.45"
futures-retry = "=0.6.0"
futures = "=0.3.34"
actix = "=0.13.5"
