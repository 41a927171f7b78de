[package]
name = "objc_bridge"
version = "0.1.0"
edition = "2021"
publish = false

[dependencies]
objc = "=0.2.7"
clang = { version = "=2.1.0", features = ["runtime", "clang_10_0"] }
apple-sdk = "=0.6.0"
