[package]
name = "pvstream"
version = "0.1.0"
edition = "2021"
publish = false

[dependencies]
regex = "*"
arrow2 = { version = "*", features = ["io_parquet"] }
flate2 = "*"
reqwest = { version = "*", default-features = false, features = ["blocking"] }
thiserror = "*"
url = "*"
pyo3 = "*"
