[package]
name = "tytanic"
version = "0.1.0"
edition = "2021"
publish = false

[dependencies]
anyhow = "*"
chrono = "*"
clap = { version = "*", features = ["derive"] }
open = "*"
oxipng = "*"
rayon = "*"
regex = "*"
termcolor = "*"
tiny-skia = "*"
toml = "*"
walkdir = "*"
which = "*"
