[package]
name = "tile"
version = "0.2.0"
edition = "2021"
publish = false

[dependencies]
macroquad = "0.3"
