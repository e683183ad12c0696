[package]
name = "ptycore"
version = "0.1.0"
edition = "2021"
publish = false

[dependencies]
base64 = "*"
unicode-width = "*"
nix = { version = "*", features = ["signal"] }
portable-pty = "*"
