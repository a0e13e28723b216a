[package]
name = "dzp"
version = "0.1.0"
edition = "2021"
publish = false

[dependencies]
ansi_term = "*"
clap = "2"
dirs = "*"
git2 = "*"
lazer = "*"
license = "*"
rustyline = "*"
semver = "1"
serde = { version = "1", features = ["derive"] }
serde_yaml = "0.8"
titlecase = "*"
url = "2"
walkdir = "2"
