[package]
name = "liblrs"
version = "0.1.0"
edition = "2021"
publish = false

[dependencies]
geo = { version = "0.28", default-features = false }
thiserror = "1"
