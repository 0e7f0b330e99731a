[package]
name = "aethellib"
version = "0.8.1"
edition = "2021"
publish = false

[dependencies]
rand = "0.8"
serde = { version = "1", features = ["derive"] }
sha2 = "0.10"
toml = "0.8"
