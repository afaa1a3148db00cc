[package]
name = "rubber_band"
version = "0.1.0"
edition = "2021"
publish = false

[dependencies]
rand = "0.8.5"
nix = { version = "0.29.0", features = ["mman", "fs"] }
