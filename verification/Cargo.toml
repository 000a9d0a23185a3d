[package]
name = "soroban-debugger"
version = "0.1.0"
edition = "2021"
publish = false

[dependencies]
anyhow = "=1.0.104"
clap = { version = "=4.6.7", features = ["derive"] }
crossterm = "=0.29.0"
serde_json = "=1.0.154"
tracing-subscriber = { version = "=0.3.23", features = ["env-filter", "json"] }
wasmparser = "=0.262.0"
