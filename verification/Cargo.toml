[package]
name = "clmm_core"
version = "0.1.0"
edition = "2021"
publish = false

[dependencies]
anchor-lang = "*"
anchor-spl = "*"
arrayref = "*"
bytemuck = { version = "*", features = ["derive"] }
