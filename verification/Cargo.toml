[package]
name = "seela"
version = "0.1.0"
edition = "2021"
publish = false

[dependencies]
clap = { version = "4", features = ["derive"] }
dirs = "*"
rayon = "*"
serde = { version = "1", features = ["derive"] }
shellexpand = "*"
toml = "*"
walkdir = "*"
