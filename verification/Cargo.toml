[package]
name = "rewind"
version = "0.1.0"
edition = "2021"

[dependencies]
chrono = { version = "=0.4.45", features = ["serde"] }
kanal = "=0.1.1"
serde = { version = "*", features = ["derive"] }
serde_json = "*"
tokio = { version = "*", features = ["time", "rt", "macros"] }
