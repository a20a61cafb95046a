[package]
name = "ron"
version = "0.1.0"
edition = "2021"
publish = false

[dependencies]
packed_struct = { version = "0.10", default-features = false }
