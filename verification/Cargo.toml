[package]
name = "rt_server"
version = "0.1.0"
edition = "2021"
publish = false

[dependencies]
tracing-subscriber = { version = "0.3", features = ["env-filter", "fmt", "registry"] }
tracing = "0.1"
tokio = { version = "1", features = ["full"] }
ractor = "*"
rdkafka = "*"
serde = { version = "1", features = ["derive"] }
serde_json = "1"
dotenv = "0.15"
futures = "0.3"
uuid = { version = "1", features = ["v4"] }
chrono = "0.4"
local-ip-address = "*"
axum = "*"
