[package]
name = "nox_ingestor"
version = "0.1.0"
edition = "2021"
publish = false

[dependencies]
alloy = { version = "=1.8.3", default-features = false, features = ["std", "sol-types", "rpc-types", "provider-http"] }
serde = { version = "=1.0.229", features = ["derive"] }
serde_json = "=1.0.154"
thiserror = "=2.0.21"
tokio = { version = "=1.54.1", features = ["rt-multi-thread", "macros", "time", "fs", "io-util", "signal", "sync", "net"] }
axum = { version = "=0.8.9", default-features = false, features = ["tokio", "http1", "json"] }
chrono = { version = "=0.4.45", default-features = false, features = ["clock", "std"] }
config = { version = "=0.15.27", default-features = false }
humantime-serde = "=1.1.1"
tracing = "=0.1.44"
tracing-subscriber = { version = "=0.3.23", default-features = false, features = ["fmt", "std"] }
