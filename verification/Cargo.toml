[package]
name = "mscl_rs"
version = "0.1.0"
edition = "2021"
publish = false

[dependencies]
pyo3 = "*"
serialport = { version = "4", default-features = false }
