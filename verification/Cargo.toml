[package]
name = "delaunay_mesh"
version = "0.1.0"
edition = "2021"
publish = false

[dependencies]
smallvec = "1"
robust = "0.2"
num-traits = "0.2"
