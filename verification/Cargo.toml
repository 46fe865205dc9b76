[package]
name = "nixbuilder"
version = "0.1.0"
edition = "2021"
publish = false

[dependencies]
chrono = "=0.4.45"
chrono-tz = "0.5"
clickhouse-rs = "=0.1.21"
colored = "2"
dotenv = "0.15"
futures = { version = "0.3", features = ["compat"] }
hex = "=0.4.3"
hmac = "=0.12.1"
hyper = { version = "0.14", features = ["full"] }
rdkafka = "0.36"
reqwest = { version = "0.11", features = ["json"] }
serde = { version = "1", features = ["derive"] }
serde_json = "1"
serde_urlencoded = "0.7"
sha2 = "=0.10.9"
shiplift = "=0.7.0"
tokio = { version = "1", features = ["full"] }
tracing = "0.1"
