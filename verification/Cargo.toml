[package]
name = "bigsryai"
version = "0.1.0"
edition = "2021"
publish = false

[dependencies]
image = { version = "0.25", default-features = false, features = ["png"] }
rayon = "1"
ab_glyph = "0.2"
sysinfo = "*"
