[package]
name = "pixel_shift"
version = "0.1.0"
edition = "2021"
publish = false

[dependencies]
image = "0.25"
num_cpus = "1"
rayon = "1"
rexiv2 = "0.10"
