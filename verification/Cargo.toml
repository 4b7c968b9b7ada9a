[package]
name = "sol_chess"
version = "0.1.0"
edition = "2021"
publish = false

[dependencies]
rand = "0.8"
macroquad = "0.4"
miniquad = "*"
thiserror = "1"
eyre = "0.6"
strum = { version = "0.26", features = ["derive"] }
