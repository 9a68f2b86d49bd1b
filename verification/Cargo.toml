[package]
name = "lera"
version = "0.1.0"
edition = "2021"
publish = false

[dependencies]
rand = "0.7"
textwrap = "0.12"
uuid = { version = "0.8", features = ["v4"] }
specs = { version = "0.16", default-features = false }
