[package]
name = "crd_merge"
version = "0.1.0"
edition = "2021"
publish = false

[dependencies]
k8s-openapi = { version = "*", features = ["latest"] }
serde_json = "1"
thiserror = "1"
