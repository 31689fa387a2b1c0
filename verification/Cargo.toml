[package]
name = "kubewatch"
version = "0.1.0"
edition = "2021"
publish = false

[dependencies]
base64 = "0.22"
bytes = "1"
futures = "0.3"
futures-core = "0.3"
futures-util = "0.3"
k8s-openapi = { version = "*", features = ["latest"] }
prom_text_format_parser = "*"
reqwest = { version = "0.12", default-features = false, features = ["json", "stream", "rustls-tls"] }
serde = "1"
serde_json = "1"
serde_yaml = "0.9"
tokio = { version = "1", features = ["full"] }
tokio-util = { version = "0.7", features = ["codec", "io"] }
