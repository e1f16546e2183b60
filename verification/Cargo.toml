[package]
name = "gc_gcm"
version = "0.1.0"
edition = "2021"
publish = false

[dependencies]
memmap = "*"
rayon = "*"
structopt = "*"
