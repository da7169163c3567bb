[package]
name = "tinyvector"
version = "0.1.0"
edition = "2021"
publish = false

[dependencies]
anyhow = "=1.0.104"
async-openai = "0.18"
axum = "=0.6.20"
bincode = "1"
chrono = { version = "=0.4.45", features = ["serde"] }
crc32fast = "=1.5.3"
dotenv = "=0.15.0"
futures = "0.3"
hyper = "=0.14.32"
markdown = "=1.0.0"
octocrab = "0.32"
rayon = "=1.12.0"
regex = "=1.13.1"
reqwest = "0.11"
sailfish = "0.8"
serde = { version = "=1.0.229", features = ["derive"] }
serde_json = "=1.0.154"
sqlx = { version = "0.7", features = ["runtime-tokio", "sqlite", "chrono"] }
thiserror = "=1.0.69"
tiktoken-rs = "0.5"
tokio = { version = "=1.54.1", features = ["full"] }
tower-http = { version = "=0.4.4", features = ["cors", "timeout", "request-id", "trace", "sensitive-headers"] }
tracing = "=0.1.44"
tracing-subscriber = { version = "0.3", features = ["env-filter"] }
uuid = { version = "=1.29.0", features = ["v4"] }
