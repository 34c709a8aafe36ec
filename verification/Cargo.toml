[package]
name = "ouch"
version = "0.1.0"
edition = "2021"
publish = false

[dependencies]
colored = "*"
zip = { version = "*", default-features = false }
