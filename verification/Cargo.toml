[package]
name = "miette"
version = "0.1.0"
edition = "2021"
publish = false

[dependencies]
indenter = "0.3"
