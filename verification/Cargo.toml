[package]
name = "xremap"
version = "0.1.0"
edition = "2021"
publish = false

[dependencies]
evdev = "0.12"
log = "0.4"
nix = "0.26"
