[package]
name = "ggml"
version = "0.1.0"
edition = "2021"
publish = false

[dependencies]
rayon = "=1.12.0"

[dev-dependencies]
half = "=2.7.1"
rand = "=0.10.3"
rand_chacha = "=0.10.0"
