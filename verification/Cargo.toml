[package]
name = "snake_again"
version = "0.1.0"
edition = "2021"
publish = false

[dependencies]
rand = "0.8"
termion = "1.5"
kiss3d = "0.35"
