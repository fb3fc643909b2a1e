[package]
name = "gate_client"
version = "0.1.0"
edition = "2021"
publish = false

[dependencies]
sha2 = "*"
hmac = "*"
chrono = "*"
serde = { version = "*", features = ["derive"] }
serde_json = "*"
anyhow = "*"
futures = "*"
reqwest = { version = "*", default-features = false, features = ["json"] }
tokio = { version = "*", features = ["rt", "sync", "time", "net", "macros"] }
tokio-tungstenite = "*"
