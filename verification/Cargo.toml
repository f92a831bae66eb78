[package]
name = "metrics_collector"
version = "0.1.0"
edition = "2021"
publish = false

[dependencies]
prometheus-client = "*"
metrics = "*"
