[package]
name = "skill_studio"
version = "0.1.0"
edition = "2021"
publish = false

[dependencies]
dirs = "*"
serde = { version = "*", features = ["derive"] }
serde_json = "*"
