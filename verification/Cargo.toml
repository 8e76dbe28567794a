[package]
name = "cow_solver"
version = "0.1.0"
edition = "2021"
publish = false

[dependencies]
rust_decimal = "1"
env_logger = "0.11"
