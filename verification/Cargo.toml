[package]
name = "rtgraph"
version = "0.1.0"
edition = "2021"
publish = false

[dependencies]
glfw = "*"
glu-sys = "*"
image = "*"
rusttype = "*"
