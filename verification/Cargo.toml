[package]
name = "stitchify"
version = "0.1.0"
edition = "2021"
publish = false

[dependencies]
clap = { version = "4", features = ["derive"] }
image = { version = "0.24", default-features = false, features = ["png", "jpeg", "gif", "bmp"] }
simple-xml-builder = "*"
