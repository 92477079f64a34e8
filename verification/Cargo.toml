[package]
name = "dozer"
version = "0.1.0"
edition = "2021"
publish = false

[dependencies]
bson = "=2.15.0"
daggy = "=0.8.1"
metrics = "=0.21.1"
mongodb = "=2.8.2"
serde = { version = "=1.0.229", features = ["derive"] }
serde_json = "=1.0.154"
tonic = "=0.9.2"
