[package]
name = "roulette"
version = "0.1.0"
edition = "2021"
publish = false

[dependencies]
godot = "*"
rand = "*"
serde = { version = "*", features = ["derive"] }
serde_json = "*"
