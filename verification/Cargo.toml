[package]
name = "reductionist"
version = "0.1.0"
edition = "2021"
publish = false

[dependencies]
aws-sdk-s3 = "0.29"
axum = { version = "0.6", features = ["headers"] }
cached = { version = "0.49", features = ["disk_store", "async"] }
flate2 = "1"
mime = "0.3"
num_cpus = "1"
rayon = "1"
serde = { version = "1", features = ["derive"] }
serde_json = "1"
tokio = { version = "1", features = ["full"] }
tokio-rayon = "2"
tower = "0.4"
tower-http = { version = "0.4", features = ["normalize-path", "trace"] }
