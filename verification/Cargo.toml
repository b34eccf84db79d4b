[package]
name = "cosmic-nas-indicator"
version = "0.1.0"
edition = "2021"
publish = false

[dependencies]
tokio = { version = "=1.54.1", features = ["process", "net", "time"] }
