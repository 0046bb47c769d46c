[package]
name = "s3_reproxy"
version = "0.1.0"
edition = "2021"
publish = false

[dependencies]
async-trait = "*"
aws-sdk-s3 = "*"
aws-smithy-runtime-api = "*"
derivative = "*"
futures = "*"
hyper = "*"
itertools = "=0.15.0"
mongodb = "=3.9.1"
serde = { version = "*", features = ["derive"] }
serde_yaml = "*"
tokio = { version = "*", features = ["full"] }
tracing = "*"
