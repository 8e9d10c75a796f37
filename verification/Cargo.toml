[package]
name = "rust_log_blaster"
version = "0.1.0"
edition = "2021"
publish = false

[dependencies]
pyo3 = "*"
