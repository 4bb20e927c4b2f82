[package]
name = "vannak"
version = "0.1.0"
edition = "2021"
publish = false

[dependencies]
bytes = "=1.12.1"
parking_lot = "=0.12.5"
rdkafka = "=0.37.0"
serde = { version = "=1.0.229", features = ["derive"] }
serde_json = "=1.0.154"
sitas = "=0.2.0"
tokio = { version = "=1.54.1", features = ["rt-multi-thread", "net", "time", "macros", "io-util"] }
tracing-subscriber = { version = "=0.3.23", features = ["env-filter"] }
