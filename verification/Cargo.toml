[package]
name = "plinko"
version = "0.1.0"
edition = "2021"
publish = false

[dependencies]
bcrypt = "*"
chrono = "0.4"
rusqlite = { version = "*", features = ["bundled"] }
serde = { version = "1", features = ["derive"] }
serde_json = "1"
skia-safe = "*"
tungstenite = "*"
uuid = { version = "1", features = ["v4"] }
winit = "0.30"
