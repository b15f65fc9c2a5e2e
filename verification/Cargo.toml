[package]
name = "mev_share"
version = "0.1.0"
edition = "2021"
publish = false

[dependencies]
alloy-primitives = "*"
alloy-rpc-types-mev = "*"
async-trait = "0.1"
bincode = "1.3"
jsonrpsee = { version = "0.24", features = ["server", "macros"] }
jsonrpsee-types = "0.24"
parking_lot = "0.12"
