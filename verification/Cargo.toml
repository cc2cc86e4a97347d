[package]
name = "minefield"
version = "0.1.0"
edition = "2021"
publish = false

[dependencies]
rand = "0.8"
gl = "0.14"
sdl2 = "0.34"
memoffset = "0.6"

[dependencies.image]
version = "0.23"
default-features = false
features = ["png"]
