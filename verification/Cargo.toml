[package]
name = "viceroy_lib"
version = "0.1.0"
edition = "2021"
publish = false

[dependencies]
tokio = { version = "1", features = ["full"] }
hyper = { version = "0.14", features = ["full"] }
axum-server = { version = "0.4", features = ["tls-rustls"] }
futures = "0.3"
rcgen = "0.10"
toml = "0.5"
serde_json = "1"
