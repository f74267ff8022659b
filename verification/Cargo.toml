[package]
name = "pixel_sort"
version = "0.1.0"
edition = "2021"
publish = false

[dependencies]
rand = "0.8"
image = "0.25"

[dev-dependencies]
colors-transform = "0.2"
