[package]
name = "attest"
version = "0.1.0"
edition = "2021"
publish = false

[dependencies]
sapio-bitcoin = { version = "=0.28.2", features = ["rand"] }
ruma-serde = "=0.6.1"
serde = { version = "=1.0.229", features = ["derive"] }
serde_json = "=1.0.154"
tokio = { version = "1", features = ["full"] }
axum = { version = "0.5", features = ["ws"] }
tokio-tungstenite = "0.17"
futures = "0.3"
rusqlite = { version = "0.27", features = ["bundled"] }
reqwest = { version = "0.11", default-features = false, features = ["json"] }
tower-http = { version = "0.3", features = ["trace"] }
tracing = "0.1"
directories = "4"
