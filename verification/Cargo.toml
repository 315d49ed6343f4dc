[package]
name = "slam"
version = "0.1.0"
edition = "2021"
publish = false

[dependencies]
microlp = "*"
rand = "0.9"
serde = { version = "1", features = ["derive"] }
serde_json = "1"
tokio = { version = "1", features = ["net", "io-util", "sync", "rt-multi-thread", "macros"] }
