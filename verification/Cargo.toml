[package]
name = "basic_platformer"
version = "0.1.0"
edition = "2021"
publish = false

[dependencies]
raylib = "*"
