[package]
name = "regoer"
version = "0.1.0"
edition = "2021"
publish = false

[dependencies]
aws-iam = "0.2.2"
regorus = "0.9.1"
serde = { version = "1", features = ["derive"] }
serde_json = "1"
thiserror = "2"
