[package]
name = "autodelete"
version = "0.1.0"
edition = "2021"
publish = false

[dependencies]
serenity = "0.11"
sqlx = { version = "0.7", features = ["runtime-tokio-rustls", "sqlite"] }
tokio = { version = "1", features = ["macros", "rt-multi-thread", "sync"] }
chrono = "0.4"
dotenv = "0.15"
env_logger = "0.10"
log = "0.4"
