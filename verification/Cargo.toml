[package]
name = "rust_format"
version = "0.1.0"
edition = "2021"
publish = false

[dependencies]
syn = { version = "=2.0.119", features = ["full"] }
prettyplease = { version = "=0.2.37", features = ["verbatim"] }
proc-macro2 = "=1.0.107"
