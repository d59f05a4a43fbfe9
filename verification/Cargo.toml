[package]
name = "kvserver"
version = "0.1.0"
edition = "2021"
publish = false

[dependencies]
rand = "0.8"
httparse = "1"
serde = { version = "1", features = ["derive"] }
serde_json = "1"
tokio = { version = "1", features = ["rt-multi-thread", "net", "time", "sync", "macros", "io-util"] }
