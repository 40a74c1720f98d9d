[package]
name = "sane-array"
version = "0.1.0"
edition = "2021"
publish = false

[dependencies]
ndarray = "0.15"
quickcheck = { version = "1", default-features = false }
