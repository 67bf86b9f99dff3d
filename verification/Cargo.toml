[package]
name = "xmlangee"
version = "0.1.0"
edition = "2021"
publish = false

[dependencies]
bcrypt = "0.15"
hmac = "0.12"
md5 = "0.7"
radix_fmt = "1"
rand = "0.8"
sha2 = "0.10"
uuid = { version = "1", features = ["v4"] }
