[package]
name = "alt_bn128"
version = "0.1.0"
edition = "2021"
publish = false
