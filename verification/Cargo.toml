[package]
name = "nhterm"
version = "0.1.0"
edition = "2021"
publish = false

[dependencies]
nix = "0.26"
regex = "1"
termion = "2"
