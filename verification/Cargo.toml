[package]
name = "zyvor_fabricd"
version = "0.1.0"
edition = "2021"
publish = false

[dependencies]
sha2 = "=0.11.1"
subtle = "=2.6.1"
serde = { version = "=1.0.229", features = ["derive"] }
serde_json = "=1.0.154"
base64 = "=0.22.1"
rand = "=0.9.5"
jsonwebtoken = { version = "10", default-features = false, features = ["rust_crypto"] }
