[package]
name = "nanovm"
version = "0.1.0"
edition = "2021"
publish = false

[dependencies]
anyhow = "1"
ariadne = "0.4"
chumsky = "0.9"
logos = "0.14"
