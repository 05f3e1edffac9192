[package]
name = "v4l2top"
version = "0.1.0"
edition = "2021"
publish = false

[dependencies]
anyhow = "*"
cli-log = "*"
crossterm = "*"
nix = { version = "*", features = ["ioctl"] }
ratatui = "*"
regex = "*"
