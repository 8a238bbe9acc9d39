[package]
name = "fm_core"
version = "0.1.0"
edition = "2021"
publish = false

[dependencies]
tokio = { version = "*", features = ["rt", "rt-multi-thread", "fs", "sync", "macros", "io-std", "io-util"] }
