[package]
name = "hvm_lang"
version = "0.1.0"
edition = "2021"
publish = false

[dependencies]
anyhow = "1"
hvm-core = "*"
indexmap = "2"
parking_lot = "0.12"
