[package]
name = "random_ramble"
version = "0.1.0"
edition = "2021"
publish = false

[dependencies]
tera = "1"
rand = "0.8"
regex = "1"
rayon = "1"
walkdir = "2"
thiserror = "1"
log = "0.4"
env_logger = "0.10"
clap = { version = "4", features = ["derive", "env"] }
