[package]
name = "approx_entropy"
version = "0.1.0"
edition = "2021"
publish = false

[dependencies]
rand = "0.8"
nalgebra = "*"
polyfit-rs = "*"
