[package]
name = "fastcache"
version = "0.1.0"
edition = "2021"
publish = false

[dependencies]
moka = { version = "0.12", features = ["sync"] }
sha2 = "0.10"
hex = "0.4"
mime_guess = "2"
chrono = "0.4"
reqwest = { version = "0.12", default-features = false, features = ["gzip", "brotli", "rustls-tls"] }
anyhow = "1"
async-trait = "0.1"
axum = "0.7"
axum-server = { version = "0.7", features = ["tls-rustls"] }
bytes = "1"
clap = { version = "4", features = ["derive"] }
serde = { version = "1", features = ["derive"] }
serde_json = "1"
serde_yaml = "0.9"
tokio = { version = "1", features = ["full"] }
tower_governor = "0.4"
tower-http = { version = "0.6", features = ["compression-gzip"] }
tracing = "0.1"
tracing-subscriber = { version = "0.3", features = ["env-filter"] }
