[package]
name = "bbecs"
version = "0.1.0"
edition = "2021"
publish = false

[dependencies]
eyre = "0.6"
ggez = "0.5.1"
thiserror = "1.0"
