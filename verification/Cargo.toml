[package]
name = "mycitadel"
version = "0.1.0"
edition = "2021"
publish = false

[dependencies]
chrono = "*"
bitcoin = "*"
electrum-client = "*"
