[package]
name = "class_refs"
version = "0.1.0"
edition = "2021"
publish = false

[dependencies]
classfile-parser = "*"
failure = "0.1"
zip = { version = "0.5", default-features = false, features = ["deflate"] }
