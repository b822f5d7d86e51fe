[package]
name = "voxel_pipeline"
version = "0.1.0"
edition = "2021"
publish = false

[dependencies]
parking_lot = "0.12"
rand = "0.9"
sdl2 = "*"
metal = "*"
