[package]
name = "nobela"
version = "0.1.0"
edition = "2021"
publish = false

[dependencies]
evalexpr = "=11.3.1"
dialoguer = "=0.10.4"
serde_json = "1"
