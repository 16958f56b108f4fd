[package]
name = "livesort"
version = "0.1.0"
edition = "2021"
publish = false

[dependencies]
clap = { version = "*", features = ["derive"] }
crossterm = "=0.27.0"
float-ord = "*"
nom = "=7.1.3"
tokio = { version = "*", features = ["full"] }
