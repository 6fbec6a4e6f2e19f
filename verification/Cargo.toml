[package]
name = "minilisp"
version = "0.1.0"
edition = "2021"
publish = false

[dev-dependencies]
chumsky = "=0.9.3"
