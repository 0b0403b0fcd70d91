[package]
name = "material_color"
version = "1.0.0"
edition = "2021"
publish = false

[dependencies]
pyo3 = "*"
