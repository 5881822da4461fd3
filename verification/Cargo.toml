[package]
name = "meridian"
version = "0.2.0"
edition = "2021"
publish = false

[dependencies]
blake3 = "=1.8.7"
dashmap = "=6.2.1"
metrics = "*"
parking_lot = "=0.13.0"
serde = { version = "=1.0.229", features = ["derive"] }
thiserror = "=2.0.21"
toml = "=1.1.8"
tracing = "*"
