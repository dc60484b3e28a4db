[package]
name = "sublink"
version = "0.1.0"
edition = "2021"
publish = false

[dependencies]
percent-encoding = "2"
rand = "0.9"
serde = { version = "1", features = ["derive"] }
