[package]
name = "reader_rust"
version = "0.1.0"
edition = "2021"
publish = false

[dependencies]
anyhow = "=1.0.104"
axum = { version = "=0.8.9", features = ["multipart"] }
chrono = "=0.4.45"
md5 = "*"
regex = "=1.13.1"
reqwest = { version = "=0.13.5", default-features = false }
scraper = "=0.29.0"
serde = { version = "=1.0.229", features = ["derive"] }
serde_json = "=1.0.154"
sxd-document = "=0.3.2"
sxd-xpath = "=0.4.2"
tokio = { version = "=1.54.1", features = ["rt-multi-thread", "macros", "fs"] }
url = "=2.5.8"
