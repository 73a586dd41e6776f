[package]
name = "dtree"
version = "0.1.0"
edition = "2021"
publish = false

[dependencies]
rand = "0.8"
nalgebra = "0.32"
ndarray = "0.15"
ndarray-rand = "0.14"
float-cmp = "0.9"
num-traits = "0.2"
thiserror = "1"
