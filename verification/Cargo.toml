[package]
name = "planesweep"
version = "0.1.0"
edition = "2021"
publish = false

[dependencies]
geo = "*"
svg = "*"
cpu-time = "*"
memory-stats = "*"
