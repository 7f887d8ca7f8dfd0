[package]
name = "crypto_in_one_rs"
version = "0.1.0"
edition = "2021"
publish = false

[dependencies]
rust_decimal = "1"
serde = { version = "1", features = ["derive"] }
serde_json = "1"
thiserror = "1"
tokio = { version = "1", features = ["rt-multi-thread", "macros", "sync", "time"] }
tokio-tungstenite = "*"
futures = "0.3"
url = "2"
reqwest = { version = "0.12", default-features = false }
tracing = "0.1"
tracing-subscriber = "0.3"
