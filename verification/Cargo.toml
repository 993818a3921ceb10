[package]
name = "rootvg"
version = "0.1.0"
edition = "2021"
publish = false

[dependencies]
euclid = "=0.22.14"
lyon = "=1.0.19"
thunderdome = "=0.6.1"
ahash = "=0.8.12"
rgb = "=0.8.53"
bytemuck = { version = "=1.25.2", features = ["derive"] }
half = "=2.7.1"
thiserror = "=1.0.69"
vec1 = "1"
