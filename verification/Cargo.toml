[package]
name = "moonshine"
version = "0.1.0"
edition = "2021"
publish = false

[dependencies]
async-shutdown = "0.2"
clap = { version = "4", features = ["derive"] }
tokio = { version = "1", features = ["macros", "rt-multi-thread", "signal", "sync", "time"] }
tracing = "0.1"
tracing-subscriber = { version = "0.3", features = ["env-filter"] }
