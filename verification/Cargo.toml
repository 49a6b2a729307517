[package]
name = "kvstore"
version = "0.1.0"
edition = "2021"
publish = false

[dependencies]
rand = "0.8"
ipnet = { version = "2", features = ["serde"] }
serde = { version = "1", features = ["derive"] }
toml = "0.8"
