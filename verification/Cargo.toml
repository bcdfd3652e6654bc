[package]
name = "hello_kernel"
version = "0.1.0"
edition = "2021"
publish = false

[dependencies]
limine = "=0.5.0"
glam = "=0.34.2"
