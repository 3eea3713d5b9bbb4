[package]
name = "hyper_rss"
version = "0.1.0"
edition = "2021"
publish = false

[dependencies]
data-encoding = "=2.11.1"
futures-lite = "=2.6.1"
hyperbee = { version = "=0.5.0", default-features = false }
hypercore = "0.13"
hypercore_handshake = "=0.6.0"
serde = { version = "=1.0.229", features = ["derive"] }
serde_json = "=1.0.154"
signature = "=2.2.0"
thiserror = "=2.0.21"
tokio = { version = "=1.54.1", features = ["rt", "time"] }

[dev-dependencies]
tokio-util = { version = "=0.7.20", features = ["compat"] }
uint24le_framing = "=0.2.0"
