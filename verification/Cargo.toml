[package]
name = "totp_auth"
version = "0.1.0"
edition = "2021"
publish = false

[dependencies]
base32 = "0.4"
hmac = "0.12"
sha1 = "0.10"
secret-cosmwasm-std = "*"
secret-toolkit-storage = "*"
serde = { version = "1", features = ["derive"] }
schemars = "0.8"
