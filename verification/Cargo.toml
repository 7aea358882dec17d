[package]
name = "bacht"
version = "0.1.0"
edition = "2021"
publish = false

[dependencies]
rand = "0.8"
regex = "1"
tokio = { version = "1", features = ["sync", "rt", "rt-multi-thread", "macros", "net", "io-util", "time"] }
