[package]
name = "aquarium"
version = "0.1.0"
edition = "2021"
publish = false

[dependencies]
block_compression = "*"
meshopt = "*"
half = "*"
rand = "*"
noise = "*"
image = { version = "*", default-features = false, features = ["jpeg"] }
gltf = "*"
