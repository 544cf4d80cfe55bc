[package]
name = "lasagna"
version = "0.1.0"
edition = "2021"
publish = false

[dependencies]
dashmap = "5"
lazy_static = "1.4"
regex = "1"
syn = { version = "1", features = ["full"] }
quote = "1"
proc-macro2 = "1"
