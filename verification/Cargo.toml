[package]
name = "traffic_link"
version = "0.1.0"
edition = "2021"
publish = false

[dependencies]
tokio = { version = "*", features = ["rt-multi-thread", "macros", "net", "time", "io-util"] }
config = "*"
serde = { version = "*", features = ["derive"] }
serde_json = "*"
chrono = "*"
