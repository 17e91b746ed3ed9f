[package]
name = "sysy"
version = "0.1.0"
edition = "2021"
publish = false

[dependencies]
inkwell = { version = "0.6", features = ["llvm18-1"] }
