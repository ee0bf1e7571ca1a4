[package]
name = "responsive_engine"
version = "0.1.0"
edition = "2021"
publish = false

[dependencies]
seed = "=0.10.0"
topo = "=0.13.2"
