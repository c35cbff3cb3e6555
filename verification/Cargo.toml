[package]
name = "bees"
version = "0.1.0"
edition = "2021"
publish = false

[dependencies]
url = "2"
urlencoding = "2"
serde = { version = "1", features = ["derive"] }
serde_json = "1"
serde_yaml = "0.9"
clap = { version = "4", features = ["derive"] }
axum = "0.7"
hyper-util = { version = "0.1", features = ["client-legacy", "http1", "tokio"] }
tower-http = { version = "0.5", features = ["cors"] }
tokio = { version = "1", features = ["full"] }
tracing = "0.1"
tracing-subscriber = { version = "0.3", features = ["local-time"] }
time = { version = "0.3", features = ["formatting", "local-offset"] }
nacos-sdk = "0.3"
elasticsearch = { version = "8.5.0-alpha.1", default-features = false, features = ["rustls-tls"] }
kafka = { version = "0.10", default-features = false }
