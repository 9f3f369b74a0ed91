[package]
name = "fills_archive"
version = "0.1.0"
edition = "2021"
publish = false

[dependencies]
anyhow = "1"
chrono = { version = "0.4", features = ["serde"] }
clap = { version = "3", features = ["derive"] }
csv-async = { version = "1", features = ["tokio"] }
env_logger = "0.9"
futures = "0.3"
hex = "0.4"
hmac-sha256 = "1"
log = "0.4"
serde = { version = "1", features = ["derive"] }
serde_json = "1"
surf = { version = "2", default-features = false, features = ["h1-client-rustls", "encoding"] }
tokio = { version = "1", features = ["fs", "macros", "rt-multi-thread"] }
