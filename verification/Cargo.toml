[package]
name = "pg_prism"
version = "0.1.0"
edition = "2021"
publish = false

[dependencies]
chrono = "0.4"
cidr = "0.3"
env_logger = "0.11"
log = "0.4"
memchr = "2"
native-tls = "0.2"
serde = { version = "1", features = ["derive"] }
serde_yaml = "0.9"
tokio = { version = "1", features = ["full"] }
tokio-native-tls = "0.3"
