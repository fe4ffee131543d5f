[package]
name = "tasktimer"
version = "0.3.3"
edition = "2021"
publish = false

[dependencies]
chrono = "0.4"
rusqlite = { version = "*", features = ["bundled"] }
serde = { version = "1", features = ["derive"] }
serde_json = "1"
uuid = { version = "1", features = ["v4"] }
keyring = "*"
reqwest = { version = "*", default-features = false, features = ["blocking", "json", "rustls-tls"] }
