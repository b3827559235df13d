[package]
name = "oxker"
version = "0.1.0"
edition = "2021"
publish = false

[dependencies]
anyhow = "*"
bollard = "*"
crossterm = "*"
futures-util = "*"
parking_lot = "*"
ratatui = "*"
tokio = { version = "*", features = ["macros", "rt-multi-thread", "sync", "time"] }
tracing = "*"
tracing-subscriber = "*"
uuid = { version = "*", features = ["v4"] }
