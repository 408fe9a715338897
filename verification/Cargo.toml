[package]
name = "aurora_prompt"
version = "0.1.0"
edition = "2021"
publish = false

[dependencies]
crossterm = "=0.29.0"
git2 = "=0.21.0"
gethostname = "=1.1.0"
dirs = "=7.0.0"
clap = { version = "=4.6.7", features = ["derive"] }
