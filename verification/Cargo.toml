[package]
name = "manchu_morph"
version = "0.1.0"
edition = "2021"
publish = false

[dependencies]
manchu-converter = "*"
unicode-segmentation = "*"

[dev-dependencies]
serde_json = "*"
