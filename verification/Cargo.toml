[package]
name = "api_signer"
version = "0.1.0"
edition = "2021"
publish = false

[dependencies]
base64 = "*"
hmac = "*"
sha2 = "*"

[dev-dependencies]
url = "*"
