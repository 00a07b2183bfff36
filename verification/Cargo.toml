[package]
name = "amp"
version = "0.1.0"
edition = "2021"
publish = false

[dependencies]
regex = "1"
fragment = "*"
yaml-rust = "*"
bloodhound = "*"
unicode-segmentation = "1"
