[package]
name = "zeos_caterpillar"
version = "0.1.0"
edition = "2021"
publish = false

[dependencies]
hex = "=0.4.3"
serde_json = "=1.0.151"
serde = { version = "1", features = ["derive"] }
