[package]
name = "artifact_depot"
version = "0.1.0"
edition = "2021"
publish = false

[dependencies]
anyhow = "=1.0.104"
async-stream = "=0.3.6"
axum = "=0.8.9"
base64 = "=0.22.1"
blake3 = "=1.8.7"
bloomfilter = "=3.0.2"
chrono = { version = "=0.4.45", features = ["serde"] }
futures = "=0.3.34"
pgp = "=0.19.0"
rand = "=0.8.8"
regex = "=1.13.1"
rmp-serde = "=1.3.1"
serde = { version = "=1.0.229", features = ["derive"] }
serde_json = "=1.0.154"
serde_yml = "=0.0.12"
smallvec = "=1.16.4"
tokio = { version = "=1.54.1", features = ["rt", "rt-multi-thread", "sync", "time", "macros"] }
tokio-util = "=0.7.20"
toml = "=0.8.23"
tracing = "=0.1.44"
uuid = { version = "=1.29.0", features = ["v4"] }
