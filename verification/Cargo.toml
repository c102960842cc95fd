[package]
name = "webserv"
version = "0.1.0"
edition = "2021"
publish = false

[dependencies]
bytes = "1"
chrono = "0.4"
tokio = { version = "1", features = ["rt-multi-thread", "net", "io-util", "signal", "time", "sync", "macros"] }
tokio-util = "0.7"
