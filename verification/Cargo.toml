[package]
name = "shuffle"
version = "0.1.0"
edition = "2021"
publish = false

[dependencies]
image = { version = "=0.25.10", default-features = false, features = ["tiff"] }
chrono = "=0.4.45"
jwalk = "=0.8.1"
rayon = "=1.12.0"
objc2 = "=0.6.5"
objc2-foundation = "=0.3.2"
objc2-app-kit = "=0.3.2"
