[package]
name = "synchronizer"
version = "0.1.0"
edition = "2021"
publish = false

[dependencies]
clap = "4"
color-eyre = "0.6"
hdf5-metno = "*"
ndarray = "*"
serde = { version = "1", features = ["derive"] }
serde_yaml = "0.9"
