[package]
name = "graphics"
version = "0.1.0"
edition = "2021"
publish = false

[dependencies]
nom = "5.1"
thiserror = "1"
indicatif = "0.17"
