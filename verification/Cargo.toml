[package]
name = "branchlib"
version = "0.1.0"
edition = "2021"
publish = false

[dependencies]
hex-simd = "*"
rayon = "*"
clap = { version = "*", features = ["derive"] }
csv = "*"
memmap2 = "*"
serde = { version = "*", features = ["derive"] }
