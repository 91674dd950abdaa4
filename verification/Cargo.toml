[package]
name = "mediamerger"
version = "0.1.0"
edition = "2021"
publish = false

[dependencies]
serde = { version = "1", features = ["derive"] }
serde_json = "1"
rustfft = "6"
tokio = { version = "1", features = ["rt", "rt-multi-thread", "sync"] }
rfd = "0.15"
dark-light = "1.1"
