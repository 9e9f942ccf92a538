[package]
name = "zk_toolkit"
version = "0.1.0"
edition = "2021"
publish = false

[dependencies]
curve25519-dalek = { version = "4", features = ["rand_core"] }
num-bigint-dig = { version = "0.8", features = ["rand"] }
rand = "0.8"
