[package]
name = "matplotlib_pyo3"
version = "0.1.0"
edition = "2021"
publish = false

[dependencies]
anyhow = "1"
clap = { version = "3.2", features = ["derive"] }
itertools = "0.10"
ndarray = "0.15"
numpy = "0.17"
pyo3 = { version = "0.17", features = ["auto-initialize"] }
rand = "0.8"
thousands = "0.2"
