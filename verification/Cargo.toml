[package]
name = "status_monitor"
version = "0.1.0"
edition = "2021"
publish = false

[dependencies]
anyhow = "1"
async-trait = "0.1"
backoff = { version = "0.4", features = ["tokio"] }
chrono = { version = "0.4", default-features = false, features = ["std", "clock", "serde"] }
clickhouse = { version = "*", default-features = false, features = ["uuid"] }
futures = "0.3"
hex = "0.4"
metrics = "0.24"
parking_lot = "0.12"
secrecy = "0.10"
serde = { version = "1", features = ["derive"] }
serde_json = "1"
sha2 = "0.10"
sqlx = { version = "0.8", default-features = false, features = ["runtime-tokio", "postgres", "macros", "uuid", "chrono", "json"] }
subtle = "2"
tokio = { version = "1", features = ["time", "macros", "rt", "sync"] }
tokio-util = "0.7"
tracing = "0.1"
url = "2"
uuid = { version = "1", features = ["v4", "v7", "serde"] }
