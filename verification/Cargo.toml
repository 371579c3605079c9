[package]
name = "rusb2snes"
version = "0.1.0"
edition = "2021"
publish = false

[dependencies]
serde = { version = "1", features = ["derive"] }
tungstenite = "*"

[dev-dependencies]
serde_json = { version = "1", features = ["preserve_order"] }
