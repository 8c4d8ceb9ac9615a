[package]
name = "cw-ibc-example"
version = "0.1.0"
edition = "2021"
publish = false

[dependencies]
cosmwasm-std = { version = "1.5", features = ["stargate", "ibc3"] }
cosmwasm-schema = "1.5"
cw-storage-plus = "1.2"
cw2 = "1.1"
serde = { version = "1", features = ["derive"] }

[dev-dependencies]
cosmos-sdk-proto = { version = "0.20", default-features = false }
prost = "0.12"
