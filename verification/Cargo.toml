[package]
name = "evp"
version = "0.19.0"
edition = "2021"
publish = false

[dependencies]
ab_glyph = "*"
anyhow = "1"
base64 = "0.22"
crossbeam-channel = "0.5"
easing-function = "*"
flate2 = "1"
gif = "*"
libghostty-vt = "*"
lodepng = "3"
regex = "1"
serde = { version = "1", features = ["derive"] }
serde_json = "1"
tracing = "0.1"
unicode-width = "0.2"
