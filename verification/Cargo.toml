[package]
name = "background_picker"
version = "0.1.0"
edition = "2021"
publish = false

[dependencies]
image = "0.24"
sha1 = "0.10"
dirs = "5"
num_cpus = "1"
clap = { version = "4", features = ["derive"] }
walkdir = "2"
rayon = "1"
