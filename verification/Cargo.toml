[package]
name = "chess_engine"
version = "0.1.0"
edition = "2021"
publish = false

[dependencies]
rand = "0.8"
serde = { version = "1", features = ["derive"] }
axum = "0.7"
tokio = { version = "1", features = ["rt-multi-thread", "macros", "net"] }
tower = "0.4"
tower-http = { version = "0.5", features = ["cors", "trace", "add-extension"] }
tracing = "0.1"
tracing-subscriber = "0.3"
