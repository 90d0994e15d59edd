[package]
name = "wgsl_gpu"
version = "0.1.0"
edition = "2021"
publish = false

[dependencies]
zyn = "=0.5.4"
syn = { version = "=2.0.119", features = ["full", "extra-traits"] }
quote = "=1.0.47"
proc-macro2 = "=1.0.107"
glam = "=0.34.2"
bytemuck = { version = "=1.25.2", features = ["derive"] }
unicode-ident = "=1.0.27"
