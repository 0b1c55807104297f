[package]
name = "mountpoint_metrics"
version = "0.1.0"
edition = "2021"
publish = false

[dependencies]
anyhow = "1"
dashmap = "6.1"
hdrhistogram = { version = "7.5", default-features = false }
metrics = "0.24"
opentelemetry = { version = "0.30", features = ["metrics"] }
sysinfo = { version = "0.35", default-features = false, features = ["system"] }
tracing = "0.1"
