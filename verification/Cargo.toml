[package]
name = "subagents"
version = "0.1.0"
edition = "2021"
publish = false

[dependencies]
async-trait = "0.1"
schemars = "0.8"
serde = { version = "1", features = ["derive"] }
tokio = { version = "1", features = ["fs", "macros", "rt", "sync"] }
tokio-util = "0.7"
ts-rs = "11"
