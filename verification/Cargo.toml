[package]
name = "dawn"
version = "0.1.0"
edition = "2021"
publish = false

[dependencies]
rsa = { version = "=0.9.10", features = ["sha2", "getrandom"] }
hex = "=0.4.3"
vdf = "=0.1.0"
classgroup = "=0.1.0"
chrono = "=0.4.45"
serde = { version = "=1.0.229", features = ["derive"] }
serde_json = "=1.0.154"
rmp-serde = "=1.3.1"
tokio = { version = "=1.54.1", features = ["full"] }
axum = "=0.8.9"
reqwest = { version = "=0.12.28", default-features = false, features = ["json", "rustls-tls"] }
tower-http = { version = "=0.6.11", features = ["cors"] }
clap = { version = "=4.6.7", features = ["derive"] }
log = "=0.4.35"
simple_logger = "=5.2.0"
futures = "=0.3.34"
geojson = "=1.0.0"
