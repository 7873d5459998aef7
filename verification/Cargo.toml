[package]
name = "wificam"
version = "0.1.0"
edition = "2021"
publish = false

[dependencies]
arc-swap = "=1.9.3"
jpeg-decoder = { version = "=0.3.2", default-features = false, features = ["platform_independent"] }
ringbuf = "=0.2.8"
gl = "=0.14.0"
glutin = "=0.29.1"
