[package]
name = "math_utils_lib"
version = "0.4.0"
edition = "2021"
publish = false

[dependencies]
mathjax_svg = "3.1.2"
resvg = { version = "0.45.1", default-features = false }
serde = { version = "1.0.229", features = ["derive"] }
