[package]
name = "codecophony"
version = "0.1.0"
edition = "2021"
publish = false

[dependencies]
hound = "*"
serde = { version = "*", features = ["derive"] }
serde_json = "*"
