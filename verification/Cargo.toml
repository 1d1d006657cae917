[package]
name = "relay_codegen"
version = "0.1.0"
edition = "2021"
publish = false

[dependencies]
hex = "0.4"
md-5 = "0.10"
