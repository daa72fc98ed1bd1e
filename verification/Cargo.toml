[package]
name = "websocket_server"
version = "0.1.0"
edition = "2021"
publish = false

[dependencies]
base64 = "*"
tokio = { version = "*", features = ["rt-multi-thread", "macros", "net", "sync"] }
axum = { version = "*", features = ["ws"] }
sqlx = { version = "*", default-features = false, features = ["sqlite", "runtime-tokio"] }
chrono = "*"
serde = { version = "*", features = ["derive"] }
futures = "*"
tower-http = { version = "*", features = ["cors"] }
tracing = "*"
tracing-subscriber = "*"
dotenv = "*"
