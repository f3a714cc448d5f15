[package]
name = "rst"
version = "0.1.0"
edition = "2021"
publish = false

[dependencies]

[dev-dependencies]
humantime = "2"
