[package]
name = "gitcore"
version = "0.1.0"
edition = "2021"
publish = false

[dependencies]
anyhow = "1"
bytes = "1"
flate2 = "1"
hex = "0.4"
reqwest = { version = "0.12", default-features = false, features = ["rustls-tls"] }
sha = "1"
tokio = { version = "1", features = ["fs", "macros", "rt-multi-thread"] }
url = "2"
