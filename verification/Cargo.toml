[package]
name = "zsign"
version = "0.1.0"
edition = "2021"
publish = false

[dependencies]
openssl = "*"
sha1 = "*"
sha2 = "*"
