[package]
name = "cw_storage"
version = "0.1.0"
edition = "2021"
publish = false

[dependencies]
cosmwasm-std = "*"
serde = { version = "1", features = ["derive"] }
