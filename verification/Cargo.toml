[package]
name = "pybulletproofs"
version = "0.1.0"
edition = "2021"
publish = false

[dependencies]
bulletproofs = "4"
curve25519-dalek-ng = "4"
merlin = "3"
rand = "0.8"
pyo3 = { version = "0.20", features = ["extension-module"] }
