[package]
name = "media_jobs"
version = "0.1.0"
edition = "2021"
publish = false

[dependencies]
url = "*"
hmac = "*"
sha2 = "*"
base64 = "*"
uuid = { version = "*", features = ["v4"] }
chrono = "*"
