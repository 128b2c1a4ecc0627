[package]
name = "tokei"
version = "0.1.0"
edition = "2021"
publish = false

[dependencies]
ignore = "0.4"
crossbeam-channel = "0.5"
parking_lot = "0.12"
rayon = "1"
log = "0.4"

[dev-dependencies]
tempfile = "3"
