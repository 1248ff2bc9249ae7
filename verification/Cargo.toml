[package]
name = "grid_analysis"
version = "0.1.0"
edition = "2021"
publish = false

[dependencies]
base64 = "0.22"
csv = "1"
opencv = { version = "0.94", default-features = false, features = ["imgcodecs", "imgproc"] }
