[package]
name = "image_utils"
version = "0.1.0"
edition = "2021"
publish = false

[dependencies]
anyhow = "1"
ndarray = "*"
opencv = "*"
rayon = "1"
serde = { version = "1", features = ["derive"] }
thiserror = "*"
xcap = "*"
