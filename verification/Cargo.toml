[package]
name = "espace_invaders"
version = "0.1.0"
edition = "2021"
publish = false

[dependencies]
rand = "*"
piston_window = "*"
image = "*"
gfx_device_gl = "*"
