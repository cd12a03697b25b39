[package]
name = "meeting_agent"
version = "0.1.0"
edition = "2021"
publish = false

[dependencies]
reqwest = { version = "=0.12.28", default-features = false, features = ["multipart"] }
serde = { version = "=1.0.229", features = ["derive"] }
serde_json = "=1.0.154"
chrono = "=0.4.45"
uuid = { version = "=1.29.0", features = ["v4"] }
dirs = "=5.0.1"
anyhow = "=1.0.104"
log = "=0.4.35"
regex = "=1.13.1"
tokio = { version = "=1.54.1", features = ["rt-multi-thread", "macros"] }
clap = { version = "4", features = ["derive"] }
