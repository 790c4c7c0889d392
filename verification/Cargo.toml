[package]
name = "fast_ws"
version = "0.1.0"
edition = "2021"
publish = false

[dependencies]
bytes = "*"
tokio = { version = "*", features = ["net", "rt", "io-util", "macros", "time"] }
