[package]
name = "data_source"
version = "0.1.0"
edition = "2021"
publish = false

[dependencies]
anyhow = "1"
async-fs = "*"
blake3 = "1"
cloud-storage = "*"
futures = "0.3"
qdrant-client = "1"
serde = { version = "1", features = ["derive"] }
serde_json = "1"
shellexpand = "*"
tokio = { version = "1", features = ["full"] }
uuid = { version = "1", features = ["v4"] }
