[package]
name = "rusty_cov"
version = "0.1.0"
edition = "2021"
publish = false

[dependencies]
serde_json = "*"
oxipng = "*"
clap = "*"
walkdir = "*"
ureq = "*"
indicatif = "*"
tar = "*"
xz2 = "*"
thiserror = "*"
