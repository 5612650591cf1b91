[package]
name = "star_catalog"
version = "0.1.0"
edition = "2021"
publish = false

[dependencies]
csv = "1"
glam = "*"
serde = { version = "1", features = ["derive"] }
