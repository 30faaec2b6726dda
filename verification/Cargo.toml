[package]
name = "metrics_exporter_tracing"
version = "0.1.0"
edition = "2021"
publish = false

[dependencies]
globset = "=0.4.21"
metrics = "=0.24.6"
metrics-util = "=0.20.4"
prometheus-client = { version = "=0.25.2", features = ["prometheus_protobuf", "protobuf-protox"] }
tracing = "=0.1.44"
