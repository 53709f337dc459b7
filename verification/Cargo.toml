[package]
name = "totp_manager"
version = "0.1.0"
edition = "2021"
publish = false

[dependencies]
data-encoding = "*"
hmac = "*"
sha1 = "*"
serde = { version = "1", features = ["derive"] }
serde_json = "1"
