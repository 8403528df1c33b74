[package]
name = "svc_context"
version = "0.1.0"
edition = "2021"
publish = false

[dependencies]
tokio = { version = "1", features = ["rt", "rt-multi-thread", "time", "io-util", "sync"] }
tokio-graceful = "*"
