[package]
name = "stream_report"
version = "0.1.0"
edition = "2021"
publish = false

[dependencies]
bitbar = "=0.10.1"
chrono = { version = "=0.4.45", features = ["serde"] }
regex = "=1.13.1"
reqwest = { version = "=0.12.28", default-features = false, features = ["blocking", "json", "rustls-tls"] }
serde = { version = "=1.0.229", features = ["derive"] }
serde_json = "=1.0.151"
serde_with = "=3.24.0"
url = "=2.5.8"
xdg = "=3.0.0"
