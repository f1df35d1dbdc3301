[package]
name = "metric_registry"
version = "0.1.0"
edition = "2021"
publish = false

[dependencies]
prometheus = "=0.13.4"
prometheus_exporter = "=0.8.5"
gmod = "=17.0.1"
lazy_static = "=1.5.1"
