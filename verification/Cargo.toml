[package]
name = "agent_platform_desktop"
version = "0.1.0"
edition = "2021"
publish = false

[dependencies]
reqwest = { version = "0.12", default-features = false }
serde = { version = "1", features = ["derive"] }
serde_json = "1"
chrono = { version = "0.4", default-features = false, features = ["clock"] }
tokio = { version = "1", features = ["rt", "macros", "process", "net", "io-util", "time", "fs"] }
msedge-tts = "*"
