[package]
name = "eris_hub"
version = "0.1.0"
edition = "2021"
publish = false

[dependencies]
cosmwasm-std = { version = "=1.5.11", features = ["staking"] }
cw2 = "=1.1.2"
cw20 = "=1.1.2"
cw20-base = { version = "=1.1.2", features = ["library"] }
cw-storage-plus = "=1.2.0"
serde = { version = "=1.0.229", default-features = false, features = ["derive"] }
