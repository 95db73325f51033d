[package]
name = "texpresso-core"
version = "0.1.0"
edition = "2021"
publish = false

[dependencies]
regex = "1"
serde = { version = "1", features = ["derive"] }
serde_json = "1"
thiserror = "2"
tokio = { version = "1", features = ["rt", "rt-multi-thread", "sync", "process", "fs", "time", "macros"] }
tokio-util = "0.7"
async-trait = "0.1"
tracing = "0.1"
notify = "8"
