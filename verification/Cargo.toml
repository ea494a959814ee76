[package]
name = "contour_simplify"
version = "0.1.0"
edition = "2021"
publish = false

[dependencies]
image = "*"
imageproc = "*"
serde = { version = "*", features = ["derive"] }
serde_json = "*"
