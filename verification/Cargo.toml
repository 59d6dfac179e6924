[package]
name = "haru"
version = "0.1.0"
edition = "2021"
publish = false

[dependencies]
unicode-segmentation = "1"
rustyline = "*"
ansi_term = "0.12"
