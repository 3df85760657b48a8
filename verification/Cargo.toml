[package]
name = "evo_sculptor"
version = "0.1.0"
edition = "2021"
publish = false

[dependencies]
neat = { version = "=0.5.1", features = ["crossover"] }
