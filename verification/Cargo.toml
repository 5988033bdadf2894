[package]
name = "tuat_feed"
version = "0.1.0"
edition = "2021"
publish = false

[dependencies]
scraper = "*"
tokio = { version = "*", features = ["rt-multi-thread", "macros", "time"] }
reqwest = { version = "*", default-features = false, features = ["rustls-tls"] }
axum = "*"
serde = { version = "*", features = ["derive"] }
