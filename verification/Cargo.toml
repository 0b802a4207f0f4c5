[package]
name = "pymodd"
version = "0.1.0"
edition = "2021"
publish = false

[dependencies]
heck = "0.4"
serde_json = "1"
crossterm = "0.26"
minreq = "2"
pyo3 = "0.18"
phf_codegen = "0.11"
