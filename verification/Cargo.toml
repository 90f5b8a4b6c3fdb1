[package]
name = "firefly_chip8"
version = "0.1.0"
edition = "2021"
publish = false

[dependencies]
firefly-rust = { version = "=0.16.0", features = ["alloc"] }
