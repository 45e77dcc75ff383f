[package]
name = "toxic_classifier"
version = "0.1.0"
edition = "2021"
publish = false

[dependencies]
csv = "1"
rand = "0.8"
regex = "1"
serde = { version = "1", features = ["derive"] }
