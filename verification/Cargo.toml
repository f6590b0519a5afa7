[package]
name = "pencil_box"
version = "0.1.0"
edition = "2021"

[dependencies]
ahash = "0.8"

[dev-dependencies]
rand = "0.8"
