[package]
name = "cipher_vault"
version = "0.1.0"
edition = "2021"
publish = false

[dependencies]
data-encoding = "2"
multipart = { version = "0.18", default-features = false, features = ["server"] }
rocket = { version = "0.5", features = ["json"] }
serde = { version = "1", features = ["derive"] }
serde_json = "1"
