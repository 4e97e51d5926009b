[package]
name = "vbd_strand"
version = "0.1.0"
edition = "2021"
publish = false

[dependencies]
nalgebra = "0.32"
serde_json = "1"
