[package]
name = "fury_contracts"
version = "0.1.0"
edition = "2021"
publish = false

[dependencies]
cosmwasm-std = "0.16"
cw-storage-plus = "0.9"
cw0 = "0.9"
cw2 = "0.9"
cw20 = "0.9"
schemars = "0.8"
serde = { version = "1.0", default-features = false, features = ["derive"] }
astroport = "*"
