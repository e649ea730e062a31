[package]
name = "bmp_image"
version = "0.1.0"
edition = "2021"
publish = false

[dependencies]
orbclient = { version = "*", default-features = false }
