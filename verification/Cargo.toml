[package]
name = "ihex_ext"
version = "0.1.0"
edition = "2021"
publish = false

[dependencies]
ihex = "3"
thiserror = "1"
