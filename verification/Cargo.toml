[package]
name = "sprite_mosaic"
version = "0.1.0"
edition = "2021"
publish = false

[dependencies]
rand = "=0.8.5"
image = "0.25"
texture_packer = "=0.30.0"
rayon = "=1.12.0"
