[package]
name = "mentisdb"
version = "0.1.0"
edition = "2021"
publish = false

[dependencies]
sha2 = "=0.10.9"
bincode = { version = "=2.0.1", features = ["serde"] }
serde = { version = "1", features = ["derive"] }
serde_json = "1"
chrono = { version = "0.4", features = ["serde"] }
uuid = { version = "1", features = ["v4", "serde"] }
openai-rust2 = "*"
tokio = { version = "1", features = ["rt-multi-thread", "macros"] }
log = "0.4"
