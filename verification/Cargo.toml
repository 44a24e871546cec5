[package]
name = "visualizer"
version = "0.1.0"
edition = "2021"
publish = false

[dependencies]
base64 = "0.13"
clap = { version = "3", features = ["derive"] }
crossterm = "0.23"
image = { version = "0.24", default-features = false, features = ["png"] }
itertools = "0.10"
num = "0.4"
rayon = "1"
