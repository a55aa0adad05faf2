[package]
name = "observation_store"
version = "0.1.0"
edition = "2021"
publish = false

[dependencies]
anyhow = "1.0"
byteorder = "1.5"
lz4_flex = { version = "0.9", default-features = false, features = ["std", "safe-encode", "safe-decode", "frame"] }
