[package]
name = "aura_core"
version = "0.1.0"
edition = "2021"
publish = false

[dependencies]
srcinfo = "=1.3.1"
rayon = "=1.12.0"
r2d2 = "=0.8.10"
log = "=0.4.34"
