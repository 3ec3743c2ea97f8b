[package]
name = "quote_stream"
version = "0.1.0"
edition = "2021"
publish = false

[dependencies]
clap = { version = "4", features = ["derive"] }
crossbeam = "0.8"
rand = "0.8"
tracing = "0.1"
tracing-subscriber = "0.3"
