[package]
name = "streamdown_render"
version = "0.1.0"
edition = "2021"
publish = false

[dependencies]
streamdown-parser = "*"
syntect = "*"
unicode-width = "*"
