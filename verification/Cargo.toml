[package]
name = "intake_gateway"
version = "0.1.0"
edition = "2021"
publish = false

[dependencies]
serde_json = "=1.0.151"
actix-web = "=4.15.0"
tokio = { version = "=1.53.2", features = ["full"] }
clickhouse-rs = "=0.1.21"
chrono = "=0.4.45"
chrono-tz = "=0.5.3"
futures-util = { version = "=0.3.34", features = ["compat"] }
tracing = "=0.1.44"
tracing-subscriber = "=0.3.23"
