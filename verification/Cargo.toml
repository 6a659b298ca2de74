[package]
name = "session_service"
version = "0.1.0"
edition = "2021"
publish = false

[dependencies]
ring = "*"
axum = "*"
tokio = { version = "*", features = ["full"] }
tower-http = { version = "*", features = ["fs", "cors"] }
http = "*"
serde = { version = "*", features = ["derive"] }
serde_json = "*"

[dev-dependencies]
base64 = "*"
