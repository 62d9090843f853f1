[package]
name = "foxash"
version = "1.2.0"
edition = "2021"
publish = false

[dependencies]
rand = "0.8"
