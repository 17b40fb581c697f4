[package]
name = "container_logger"
version = "0.1.0"
edition = "2021"
publish = false

[dependencies]
hyper = { version = "0.14", features = ["server", "http1", "stream"] }
hyperlocal = "0.8"
tokio = { version = "1", features = ["rt-multi-thread", "macros", "fs", "io-util", "sync"] }
serde = { version = "1", features = ["derive"] }
serde_json = "1"
