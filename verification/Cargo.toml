[package]
name = "update_pattern_gen"
version = "0.1.0"
edition = "2021"
publish = false

[dependencies]
rand = "*"
rayon = "*"
anyhow = "*"
image = "*"
imageproc = "*"
