[package]
name = "carnaval_rust"
version = "0.1.0"
edition = "2021"
publish = false

[dependencies]
ndarray = "0.16"
ndarray-rand = "0.15"
ndarray-stats = "0.6"
rand = "0.8"
thiserror = "1"
