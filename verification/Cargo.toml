[package]
name = "proto_server"
version = "0.1.0"
edition = "2021"
publish = false

[dependencies]
crc = "*"
uuid = { version = "*", features = ["v4"] }
tokio = { version = "*", features = ["rt-multi-thread", "net", "sync", "time", "io-util", "macros"] }
tokio-util = { version = "*", features = ["codec"] }
futures-util = "*"
bytes = "*"
tracing = "*"
tracing-subscriber = "*"
