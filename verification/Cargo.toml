[package]
name = "workload_cache"
version = "0.1.0"
edition = "2021"
publish = false

[dependencies]
ahash = "0.8"
base64 = "0.22"
anyhow = "1"
futures = "0.3"
k8s-openapi = { version = "0.20", features = ["latest"] }
kube = { version = "0.87", features = ["runtime", "unstable-runtime"] }
log = "0.4"
parking_lot = "0.12"
tokio = { version = "1", features = ["rt-multi-thread", "macros"] }
