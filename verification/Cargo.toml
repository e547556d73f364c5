[package]
name = "signal-message-scheduler"
version = "0.1.0"
edition = "2021"
publish = false

[dependencies]
chrono = "0.4"
colored = "2"
inquire = { version = "0.7", features = ["date"] }
spinners = "4"
