[package]
name = "bezgrid"
version = "0.1.0"
edition = "2021"
publish = false

[dependencies]
kurbo = "0.11"
macroquad = "0.4"
