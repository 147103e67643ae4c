[package]
name = "vauth"
version = "1.0.0"
edition = "2021"
publish = false

[dependencies]
serde_urlencoded = "*"
reqwest = { version = "*", default-features = false, features = ["rustls-tls"] }
