[package]
name = "latte_ipc"
version = "0.1.0"
edition = "2021"
publish = false

[dependencies]
anyhow = "1"
aws-config = { version = "1", default-features = false, features = ["behavior-version-latest", "rt-tokio"] }
aws-sdk-dynamodb = { version = "=1.136.0", default-features = false, features = ["behavior-version-latest", "rt-tokio"] }
bytes = "=1.12.1"
chrono = "=0.4.45"
dashmap = "=6.2.1"
flate2 = "=1.1.10"
futures = "0.3"
openssl = "0.10"
parking_lot = "0.12"
rand = { version = "0.8", features = ["small_rng"] }
rune = "=0.13.4"
rust_decimal = "=1.43.0"
scylla = { version = "=1.9.0", features = ["openssl-010"] }
tokio = { version = "1", features = ["full"] }
tracing = "0.1"
tracing-subscriber = { version = "0.3", features = ["env-filter"] }
uuid = "=1.29.0"
