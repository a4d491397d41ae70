[package]
name = "twpatcher"
version = "0.1.0"
edition = "2021"
publish = false

[dependencies]
anyhow = "*"
clap = { version = "*", features = ["derive"] }
directories = "*"
r2d2 = "=0.8.10"
r2d2_sqlite = "=0.35.0"
