[package]
name = "fracgm"
version = "0.1.0"
edition = "2021"
publish = false

[dependencies]
libc = "0.2"
ndarray = "0.15"
ndarray-linalg = "0.16"
num_cpus = "1"
numpy = "0.21"
pyo3 = "0.21"
