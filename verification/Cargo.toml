[package]
name = "flat_storage"
version = "0.1.0"
edition = "2021"
publish = false

[dependencies]
unicode-segmentation = "1"
unicode-width = "=0.1.14"

[dev-dependencies]
rand = "=0.8.8"
