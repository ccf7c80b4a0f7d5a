[package]
name = "terminal_service"
version = "1.0.0"
edition = "2021"
publish = false

[dependencies]
actix-web = "4"
chrono = { version = "0.4", features = ["serde"] }
env_logger = "0.11"
serde = { version = "1", features = ["derive"] }
serde_json = "1"
