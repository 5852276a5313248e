[package]
name = "uptime_worker"
version = "0.1.0"
edition = "2021"
publish = false

[dependencies]
anyhow = "=1.0.104"
dotenv = "=0.15.0"
futures-util = "=0.3.34"
reqwest = { version = "=0.13.5", default-features = false }
serde = { version = "=1.0.229", features = ["derive"] }
serde_json = "=1.0.151"
sqlx = { version = "=0.9.0", default-features = false, features = ["runtime-tokio", "postgres", "json"] }
tokio = { version = "=1.53.2", features = ["macros", "rt-multi-thread", "sync", "time"] }
uuid = { version = "=1.27.0", features = ["v4"] }
