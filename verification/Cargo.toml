[package]
name = "aeon_algorithms"
version = "0.1.0"
edition = "2021"
publish = false

[dependencies]
biodivine-lib-bdd = "*"
biodivine-lib-param-bn = "*"
