[package]
name = "hough_image"
version = "0.1.0"
edition = "2021"
publish = false

[dependencies]
nalgebra = { version = "*", default-features = false, features = ["std"] }
image = { version = "*", default-features = false, features = ["png"] }
imageproc = { version = "*", default-features = false }
