[package]
name = "voxtype"
version = "0.1.0"
edition = "2021"
publish = false

[dependencies]
anyhow = "*"
tokio = { version = "*", features = ["macros", "rt-multi-thread", "process", "signal", "time", "sync", "io-util"] }
tracing = "*"
