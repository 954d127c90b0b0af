[package]
name = "hartree_fock"
version = "0.1.0"
edition = "2021"
publish = false

[dependencies]
ndarray = "0.15"
ndarray-linalg = "0.16"
pyo3 = { version = "0.20", features = ["extension-module", "abi3-py38"] }
