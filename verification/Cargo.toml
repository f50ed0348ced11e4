[package]
name = "svgpath"
version = "0.1.0"
edition = "2021"

[dependencies]
sdl2 = "*"
xml-rs = "*"
