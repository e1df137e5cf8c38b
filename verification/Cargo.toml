[package]
name = "apollo_federation"
version = "0.1.0"
edition = "2021"
publish = false

[dependencies]
ahash = "0.8"
apollo-compiler = "1"
indexmap = "2"
url = "2"
