[package]
name = "spade_core"
version = "0.1.0"
edition = "2021"
publish = false

[dependencies]
nalgebra = "*"
rand = "0.9"
csv = "1"
ndarray = "*"
strum = "*"
strum_macros = "*"
thiserror = "*"

[dev-dependencies]
tempfile = "3"
