[package]
name = "prefix_calc"
version = "0.1.0"
edition = "2021"
publish = false

[dependencies]
regex = "*"
unicode-segmentation = "*"
rustc_apfloat = "*"
