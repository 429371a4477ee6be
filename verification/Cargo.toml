[package]
name = "dkn_compute"
version = "0.1.0"
edition = "2021"
publish = false

[dependencies]
tokio = { version = "1", features = ["rt-multi-thread", "macros", "signal", "time", "net", "sync"] }
tokio-util = "0.7"
axum = "0.7"
prometheus-client = "0.22"
log = "0.4"
dotenvy = "0.15"
tracing-subscriber = { version = "0.3", features = ["env-filter"] }
opentelemetry = "0.22"
opentelemetry_sdk = { version = "0.22", features = ["rt-tokio"] }
opentelemetry-otlp = "0.15"
tracing-opentelemetry = "0.23"
