[package]
name = "parallax_gif"
version = "0.1.0"
edition = "2021"
publish = false

[dependencies]
anyhow = "1"
base64 = "0.22"
chrono = "0.4"
gif = "0.13"
image = { version = "0.25", default-features = false, features = ["png"] }
minifb = "*"
pyo3 = "0.25"
