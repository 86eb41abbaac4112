[package]
name = "rasterizer"
version = "0.1.0"
edition = "2021"
publish = false

[dependencies]
image = "0.24"
ndarray = "0.15"
palette = "0.7"
