[package]
name = "spotflow"
version = "0.1.0"
edition = "2021"
publish = false

[dependencies]
serde_json = "1"
brotli = "3"
uuid = { version = "1", features = ["v4"] }
http = "1"
log = "0.4"
anyhow = "1"
thiserror = "1"
chrono = "0.4"
serde = { version = "1", features = ["derive"] }
rumqttc = "0.24"
sqlx = { version = "0.7", features = ["sqlite", "runtime-tokio"] }
tokio = { version = "1", features = ["full"] }
tokio-util = "0.7"
ureq = { version = "2", features = ["json"] }
