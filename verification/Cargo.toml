[package]
name = "genpack-install"
version = "0.1.0"
edition = "2021"
publish = false

[dependencies]
slint = { version = "1", default-features = false, features = ["compat-1-2", "std"] }
