[package]
name = "chargather"
version = "0.1.0"
edition = "2021"
publish = false

[dependencies]
ndarray = "=0.15.6"
clap = { version = "=4.6.7", features = ["derive"] }
hdf5 = "=0.8.1"
