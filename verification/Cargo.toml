[package]
name = "feed_mirror"
version = "0.1.0"
edition = "2021"
publish = false

[dependencies]
anyhow = "1"
chrono = { version = "0.4", features = ["serde"] }
duckdb = { version = "*", features = ["r2d2", "chrono"] }
r2d2 = "0.8"
rayon = "1"
reqwest = { version = "0.11", default-features = false, features = ["blocking", "json", "rustls-tls"] }
rocket = "0.5"
serde = { version = "1", features = ["derive"] }
serde_json = "1"
