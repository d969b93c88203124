[package]
name = "perscrutar_lib"
version = "0.1.0"
edition = "2021"
publish = false

[dependencies]
nom = "7"
nom-unicode = "0.3"
