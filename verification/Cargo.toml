[package]
name = "slippy_map_tiles"
version = "0.1.0"
edition = "2021"
publish = false

[dependencies]
regex = "1"
world_image_file = "*"
