[package]
name = "ue14500_toolkit"
version = "0.1.0"
edition = "2021"
publish = false

[dependencies]
bitbit = "=0.2.0"
clap = { version = "=3.2.25", features = ["derive"] }
comfy-table = "=5.0.1"
