[package]
name = "rist"
version = "0.1.0"
edition = "2021"
publish = false

[dependencies]
colored = "2"
indicatif = "0.17"
itertools = "0.10"
rand = "0.8"
