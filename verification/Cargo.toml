[package]
name = "excel_parser"
version = "0.1.0"
edition = "2021"
publish = false

[dependencies]
calamine = "=0.36.1"
pyo3 = "=0.29.3"
thiserror = "=2.0.21"

[dev-dependencies]
zip = "=8.6.0"
