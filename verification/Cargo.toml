[package]
name = "dathagerty"
version = "0.1.0"
edition = "2021"
publish = false

[dependencies]
async-trait = "=0.1.92"
chrono = "=0.4.45"
comrak = { version = "=0.48.0", default-features = false, features = ["syntect"] }
hyper-util = { version = "=0.1.21", features = ["server", "server-auto", "server-graceful", "tokio"] }
percent-encoding = "=2.3.2"
rand = "=0.9.5"
rust-embed = "=8.13.0"
serde = { version = "=1.0.229", features = ["derive"] }
serde_json = "=1.0.154"
serde_yaml_ng = "=0.10.0"
thiserror = "=2.0.21"
tokio = { version = "=1.54.1", features = ["full"] }
topcoat = "=0.1.3"
tracing = "=0.1.44"
tracing-subscriber = { version = "=0.3.23", features = ["env-filter", "json"] }
url = "=2.5.8"
