[package]
name = "fba"
version = "0.1.0"
edition = "2021"
publish = false

[dependencies]
framebuffer = "*"
gif = "*"
pico-args = "*"
