[package]
name = "ff7_assets"
version = "0.1.0"
edition = "2021"
publish = false

[dependencies]
anyhow = "1"
derive_more = { version = "*", features = ["constructor"] }
glam = "*"
nom = "7"
