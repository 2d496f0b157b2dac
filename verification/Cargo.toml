[package]
name = "wgsl_inline"
version = "0.1.0"
edition = "2021"
publish = false

[dependencies]
naga = { version = "=24.0.0", features = ["wgsl-in"] }
naga-to-tokenstream = "=0.8.0"
proc-macro2 = "=1.0.107"
quote = "=1.0.47"
syn = { version = "=2.0.119", features = ["full"] }
