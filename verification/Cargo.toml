[package]
name = "staking_auction"
version = "0.1.0"
edition = "2021"
publish = false

[dependencies]
frame-support = "3.0.0"
frame-system = "3.0.0"
pallet-balances = "3.0.0"
sp-runtime = "3.0.0"
sp-std = "3.0.0"
parity-scale-codec = { version = "2.0.0", features = ["derive"] }
