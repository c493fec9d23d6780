[package]
name = "evm"
version = "0.1.0"
edition = "2021"
publish = false

[dependencies]
hex = "0.4"
tokio = { version = "1", features = ["rt", "rt-multi-thread", "macros"] }
futures = "0.3"
tracing = "0.1"
tracing-subscriber = { version = "0.3", features = ["env-filter", "fmt"] }
