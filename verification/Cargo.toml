[package]
name = "equarior"
version = "0.1.0"
edition = "2021"
publish = false

[dependencies]
hmac = "*"
sha2 = "*"
bcrypt = "*"
