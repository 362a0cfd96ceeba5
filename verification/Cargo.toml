[package]
name = "recolour"
version = "0.1.0"
edition = "2021"
publish = false

[dependencies]
imageproc = "*"
rayon = "*"
serde_yml = "*"
