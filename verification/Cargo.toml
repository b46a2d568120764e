[package]
name = "hostbridge"
version = "0.1.0"
edition = "2021"
publish = false

[dependencies]
crossbeam-channel = "=0.5.17"
csv = "=1.4.0"
log = { version = "=0.4.34", features = ["std"] }
cpython = "=0.5.2"
python3-sys = "=0.5.2"
pyo3 = "=0.13.2"
