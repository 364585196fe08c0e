[package]
name = "nofilelimit"
version = "0.1.0"
edition = "2021"
publish = false

[dependencies]
clap = { version = "=3.2.25", features = ["derive"] }
dialoguer = "=0.10.4"
indicatif = "0.17"
