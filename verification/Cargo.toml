[package]
name = "sane_cp"
version = "0.1.0"
edition = "2021"
publish = false

[dependencies]
wildmatch = "*"
