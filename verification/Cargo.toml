[package]
name = "raytracer"
version = "0.1.0"
edition = "2021"
publish = false

[dependencies]
clap = "2"
crossbeam = "0.8"
derive_builder = "0.20"
num_cpus = "1"
png = "0.17"
rand = "0.8"
