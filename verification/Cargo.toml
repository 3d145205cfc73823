[package]
name = "dentcloud"
version = "0.1.0"
edition = "2021"
publish = false

[dependencies]
serde_json = "=1.0.151"
chrono = "=0.4.45"
governor = "=0.10.4"
reqwest = { version = "=0.13.5", default-features = false, features = ["query"] }
