[package]
name = "nix_doc"
version = "0.1.0"
edition = "2021"
publish = false

[dependencies]
rnix = "=0.11.0"
rowan = "0.15"
