[package]
name = "mono_lower"
version = "0.1.0"
edition = "2021"
publish = false

[dependencies]
nonempty = "*"
bumpalo = { version = "3", features = ["collections"] }
