[package]
name = "code_gen"
version = "0.1.0"
edition = "2021"
publish = false

[dependencies]
anyhow = "1"
naga = { version = "*", features = ["wgsl-in"] }
proc-macro2 = "1"
quote = "1"
thiserror = "*"
