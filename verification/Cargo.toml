[package]
name = "replicate_to_s3"
version = "0.1.0"
edition = "2021"
publish = false

[dependencies]
chrono = "0.4"
anyhow = "1"
bytes = "1"
clap = { version = "4", features = ["derive"] }
tokio = { version = "1", features = ["full"] }
tokio-postgres = "0.7"
postgres-protocol = "0.6"
futures = "0.3"
aws-config = "1"
aws-sdk-s3 = "1"
