[package]
name = "conic_terracotta"
version = "0.1.0"
edition = "2021"
publish = false

[dependencies]
serde_json = "1"
hex = "0.4"
rand_core = { version = "0.9", features = ["os_rng"] }
tokio = { version = "1", features = ["rt-multi-thread", "sync"] }
parking_lot = "0.12"
socket2 = { version = "0.5", features = ["all"] }
local-ip-address = "0.6"
sevenz-rust2 = "*"
