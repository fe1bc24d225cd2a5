[package]
name = "tensor_ops"
version = "0.1.0"
edition = "2021"
publish = false

[dependencies]
ndarray = "0.15"
ndarray_einsum_beta = "0.7"
nalgebra = "0.32"
num-traits = "0.2"
