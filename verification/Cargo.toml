[package]
name = "genesis_explorer"
version = "0.1.0"
edition = "2021"
publish = false

[dependencies]
ckb-types = "*"
ckb-rational = "*"
chrono = "0.4"
indicatif = "*"
failure = "0.1"
