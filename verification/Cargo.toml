[package]
name = "wordle_bot"
version = "0.1.0"
edition = "2021"
publish = false

[dependencies]
anyhow = "1"
rand = "0.9"
regex = "1"
serde = { version = "1", features = ["derive"] }
serde_json = "1"
