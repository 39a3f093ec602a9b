[package]
name = "findreplace"
version = "0.1.0"
edition = "2021"
publish = false

[dependencies]
regex = "1"
serde_json = "1"
serde_yaml = "0.9"
