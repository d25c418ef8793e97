[package]
name = "rust_freertos"
version = "0.1.0"
edition = "2021"
publish = false
