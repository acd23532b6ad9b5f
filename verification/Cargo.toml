[package]
name = "gravity_sandbox"
version = "0.1.0"
edition = "2021"
publish = false

[dependencies]
itertools = "*"
minifb = "*"
rand = "0.8"
vector2d = "*"
