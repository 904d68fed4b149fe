[package]
name = "vrl_expression"
version = "0.1.0"
edition = "2021"
publish = false

[dependencies]
metrics = "0.21"
thiserror = "1"
