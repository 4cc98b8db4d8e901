[package]
name = "simple_eyre"
version = "0.1.0"
edition = "2021"
publish = false

[dependencies]
eyre = "0.3"
indenter = "0.3"
