[package]
name = "chain_sync"
version = "0.1.0"
edition = "2021"
publish = false

[dependencies]
byteorder = "1"
rust-argon2 = "0.8"
rand = "0.7"
