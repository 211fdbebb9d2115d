[package]
name = "stream_assembler"
version = "0.1.0"
edition = "2021"
publish = false

[dependencies]
axum = "*"
tokio = { version = "*", features = ["macros", "rt-multi-thread"] }
tower-http = { version = "*", features = ["cors"] }
serde = { version = "*", features = ["derive"] }
serde_json = "*"
futures = "*"
async-stream = "*"
reqwest = { version = "*", default-features = false, features = ["json", "stream"] }
