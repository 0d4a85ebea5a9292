[package]
name = "hgecko"
version = "0.1.0"
edition = "2021"
publish = false

[dependencies]
elf = "0.7"
