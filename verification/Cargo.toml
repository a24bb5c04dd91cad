[package]
name = "core-mx-life-bonding-sc"
version = "0.1.0"
edition = "2021"
publish = false

[dependencies]
multiversx-sc = "=0.52.3"
