[package]
name = "spatial_os"
version = "0.1.0"
edition = "2021"
publish = false

[dependencies]
chrono = { version = "0.4", features = ["serde"] }
serde = { version = "1", features = ["derive"] }
serde_json = "1"
uuid = { version = "1", features = ["v4", "serde"] }
anyhow = "1"
async-trait = "0.1"
tracing = "0.1"
futures = "0.3"
tokio = { version = "1", features = ["sync", "time", "fs", "rt", "macros"] }
tokio-stream = "0.1"
axum = { version = "0.8", default-features = false, features = ["json", "tokio"] }
sqlx = { version = "0.8", default-features = false, features = ["postgres", "runtime-tokio", "uuid", "chrono", "json", "macros"] }
adk-core = "*"
adk-agent = { version = "*", default-features = false }
adk-runner = { version = "*", default-features = false }
adk-awp = { version = "*", default-features = false }
awp-types = "*"
adk-realtime = { version = "*", default-features = false, features = ["gemini"] }
