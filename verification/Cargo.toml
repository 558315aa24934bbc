[package]
name = "skyanswers"
version = "0.1.0"
edition = "2021"
publish = false

[dependencies]
scraper = "*"
base64 = "*"
rand = "*"
serde_json = "*"
reqwest = { version = "*", default-features = false, features = ["blocking", "json", "rustls-tls"] }
