[package]
name = "secs_sim"
version = "0.1.0"
edition = "2021"
publish = false

[dependencies]
roxmltree = "0.20"
uuid = { version = "1", features = ["v4"] }
serde = { version = "1", features = ["derive"] }
serde_json = "1"
