[package]
name = "rracer"
version = "0.1.0"
edition = "2021"
publish = false

[dependencies]
rand = "0.8"
uuid = { version = "1", features = ["v4"] }
dashmap = "6"
scraper = "*"
rust-fsm = "*"
serde = { version = "1", features = ["derive"] }
serde_json = "1"
tokio = { version = "1", features = ["full"] }
axum = { version = "0.7", features = ["ws"] }
futures = "0.3"
tower-http = { version = "0.6", features = ["cors", "fs"] }
tracing = "0.1"
tracing-subscriber = "0.3"
anyhow = "1"
sqlx = { version = "0.8", default-features = false, features = ["runtime-tokio", "postgres"] }
reqwest = { version = "0.12", default-features = false }
