[package]
name = "jet1090"
version = "0.1.0"
edition = "2021"
publish = false

[dependencies]
deku = "*"
serde = { version = "1", features = ["derive"] }
serde_json = "1"
axum = "*"
tokio = { version = "1", features = ["rt-multi-thread", "macros", "net", "sync"] }
tower-http = { version = "*", features = ["cors"] }
futures = "0.3"
tracing = "0.1"
