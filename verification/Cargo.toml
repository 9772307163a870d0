[package]
name = "linescript"
version = "0.1.0"
edition = "2021"
publish = false

[dependencies]
anyhow = "1"
inkwell = { version = "0.4", features = ["llvm15-0"] }
