[package]
name = "generativity_pattern_rs"
version = "0.1.0"
edition = "2021"
publish = false

[dependencies]
generativity = "1"
permutation-rs = "*"
