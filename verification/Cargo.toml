[package]
name = "quiz_engine"
version = "0.1.0"
edition = "2021"
publish = false

[dependencies]
async-graphql = "*"
async-graphql-axum = "*"
axum = "*"
futures-util = "*"
http = "*"
serde = { version = "*", features = ["derive"] }
serde_json = "*"
tokio = { version = "*", features = ["sync", "rt-multi-thread", "macros", "net"] }
tokio-stream = { version = "*", features = ["sync"] }
tower = "*"
tower-http = { version = "*", features = ["cors"] }
urlencoding = "*"
uuid = { version = "*", features = ["v4"] }
