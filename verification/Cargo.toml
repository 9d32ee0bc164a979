[package]
name = "mono_frame"
version = "0.1.0"
edition = "2021"
publish = false

[dependencies]
bitvec = "1"
font8x8 = "0.3"
rocket = "0.5"
