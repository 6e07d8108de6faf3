[package]
name = "wiz_bulb"
version = "0.1.0"
edition = "2021"
publish = false

[dependencies]
tokio = { version = "*", features = ["full"] }
axum = "*"
serde = { version = "*", features = ["derive"] }
serde_json = "*"
url = "*"
log = "*"
env_logger = "*"
logging_timer = "*"
surrealdb = { version = "*", default-features = false, features = ["protocol-ws"] }
