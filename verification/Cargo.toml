[package]
name = "apollo_kit"
version = "0.1.0"
edition = "2021"
publish = false

[dependencies]
ahash = "0.8"
futures = "0.3"
http = "1"
opentelemetry = "0.24"
opentelemetry_sdk = "0.24"
tokio = { version = "1", features = ["sync"] }
tower = { version = "0.5", features = ["util"] }
tower-http = { version = "0.6", features = ["cors"] }
tracing = "0.1"
