[package]
name = "redis_cluster_async"
version = "0.1.0"
edition = "2021"
publish = false

[dependencies]
crc16 = "=0.4.0"
futures = "=0.3.34"
rand = "=0.8.8"
redis = { version = "=0.24.1", default-features = false, features = ["aio", "tokio-comp"] }
tokio = { version = "=1.54.1", features = ["rt", "time"] }
