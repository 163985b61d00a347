[package]
name = "yarapi"
version = "0.1.0"
edition = "2021"
publish = false

[dependencies]
sha3 = "*"
url = "*"
serde = { version = "*", features = ["derive"] }
serde_json = "*"
tokio = { version = "*", features = ["sync", "rt", "time", "macros"] }
futures = "*"
anyhow = "*"
