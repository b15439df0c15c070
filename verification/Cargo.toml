[package]
name = "cloud_interp"
version = "0.1.0"
edition = "2021"
publish = false

[dependencies]
kd-tree = "*"
nalgebra = "*"
ply-rs = "*"
typenum = "*"
clap = { version = "*", features = ["derive"] }
