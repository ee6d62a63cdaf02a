[package]
name = "image_viewer"
version = "0.1.0"
edition = "2021"
publish = false

[dependencies]
lru = "0.12"
image = { version = "0.25", default-features = false, features = ["png", "jpeg", "gif", "bmp", "webp", "tiff"] }
anyhow = "1"
tokio = { version = "1", features = ["rt", "time"] }
thread-priority = "1"
