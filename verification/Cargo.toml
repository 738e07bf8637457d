[package]
name = "badam_sat"
version = "0.1.0"
edition = "2021"
publish = false

[dependencies]
axum = { version = "=0.6.20", features = ["headers"] }
axum-server = { version = "=0.5.1", features = ["tls-rustls"] }
clap = { version = "=4.6.7", features = ["derive"] }
ed25519-compact = "=2.6.0"
log = "=0.4.34"
pasetors = "=0.6.8"
rand = "=0.8.8"
serde = { version = "=1.0.229", features = ["derive"] }
serde_json = "=1.0.154"
simple_logger = "=4.3.3"
thiserror = "=1.0.69"
tokio = { version = "=1.54.1", features = ["full"] }
tower-http = { version = "=0.4.4", features = ["fs"] }
uuid = { version = "=1.29.0", features = ["v4", "serde"] }
