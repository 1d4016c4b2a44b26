[package]
name = "zstring"
version = "0.3.0"
edition = "2021"
publish = false

[dev-dependencies]
bstr = { version = "1", default-features = false, features = ["std"] }
