[package]
name = "nett_icon_viewer"
version = "0.1.0"
edition = "2021"
publish = false

[dependencies]
fuzzy-matcher = "*"
async-channel = "*"
