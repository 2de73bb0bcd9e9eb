[package]
name = "rogue_core"
version = "0.1.0"
edition = "2021"
publish = false

[dependencies]
bracket-random = "0.8"
serde = { version = "1.0", features = ["derive"] }
serde_json = "1.0"
