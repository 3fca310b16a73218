[package]
name = "marginalia"
version = "0.1.0"
edition = "2021"
publish = false

[dependencies]
font8x8 = { version = "=0.3.1", default-features = false }
x86_64 = { version = "=0.15.5", default-features = false, features = ["instructions"] }
spin = "=0.9.9"
bootloader = { version = "=0.9.35", features = ["map_physical_memory"] }
