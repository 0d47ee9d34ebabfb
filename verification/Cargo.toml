[package]
name = "record_store"
version = "0.1.0"
edition = "2021"
publish = false

[dependencies]
secret-toolkit = { version = "=0.10.3", features = ["permit"] }
secret-cosmwasm-std = "=1.1.11"
secret-cosmwasm-storage = "=1.1.11"
schemars = "0.8"
serde = { version = "1", features = ["derive"] }
