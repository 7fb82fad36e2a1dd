[package]
name = "autogamivoid"
version = "0.1.0"
edition = "2021"
publish = false

[dependencies]
heck = "0.5"
serde = { version = "1", features = ["derive"] }
serde_json = "1"
anyhow = "1"
url = "2"
tracing = "0.1"
tracing-subscriber = { version = "0.3", features = ["env-filter", "fmt"] }
tokio = { version = "1", features = ["rt-multi-thread", "time", "macros"] }
reqwest = { version = "0.12", default-features = false, features = ["blocking", "rustls-tls"] }
