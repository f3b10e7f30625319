[package]
name = "term_shaper"
version = "0.1.0"
edition = "2021"
publish = false

[dependencies]
termwiz = "*"
