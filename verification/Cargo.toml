[package]
name = "paradise_proxy"
version = "0.1.0"
edition = "2021"
publish = false

[dependencies]
nipper = "=0.1.9"
regex = "=1.13.1"
url = "=2.5.8"
serde_json = "=1.0.154"
serde = { version = "=1.0.229", features = ["derive"] }
axum = { version = "=0.4.8", features = ["headers"] }
tokio = { version = "=1.54.1", features = ["rt-multi-thread", "macros"] }
reqwest = { version = "=0.11.27", default-features = false, features = ["cookies", "rustls-tls"] }
headers = "=0.3.9"
thiserror = "=1.0.69"
dotenv = "=0.15.0"
daemonize-me = "=2.0.4"
log = "=0.4.35"
anyhow = "=1.0.104"
js-sandbox = "=0.1.6"
