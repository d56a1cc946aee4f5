[package]
name = "photo_insight"
version = "0.1.0"
edition = "2021"
publish = false

[dependencies]
zip = "*"
kamadak-exif = "*"
image = { version = "*", default-features = false, features = ["jpeg", "png"] }
serde = { version = "*", features = ["derive"] }
serde_json = "*"
base64 = "*"
