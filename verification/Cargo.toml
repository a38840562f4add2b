[package]
name = "md5_forge"
version = "0.1.0"
edition = "2021"

[dev-dependencies]
md5 = "*"
