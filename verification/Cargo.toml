[package]
name = "madx_language"
version = "0.1.0"
edition = "2021"
publish = false

[dependencies]
ordered-float = "*"
thiserror = "*"
utf8-chars = "*"
