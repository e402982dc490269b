[package]
name = "baumhard"
version = "0.1.0"
edition = "2021"
publish = false

[dependencies]
unicode-segmentation = "1"
indextree = "4"
crossbeam-channel = "0.5"
glam = "*"
ordered-float = "*"
rustc-hash = "*"
serde = { version = "1", features = ["derive"] }
enum-map = "2"
slab = "0.4"
lazy_static = "1"
