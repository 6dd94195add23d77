[package]
name = "dogwood-language"
version = "0.1.0"
edition = "2021"
publish = false

[dependencies]
cedar-policy = "4"
cedar-policy-core = "4"
