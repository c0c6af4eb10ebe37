[package]
name = "postgres_copy_binary"
version = "0.1.0"
edition = "2021"
publish = false

[dependencies]
bytes = "*"
