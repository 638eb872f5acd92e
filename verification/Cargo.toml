[package]
name = "quick_media_organizer"
version = "0.2.0"
edition = "2021"
publish = false

[dependencies]
serde = { version = "1", features = ["derive"] }
serde_json = "1"
chrono = "0.4"
kamadak-exif = "*"
img-parts = "*"
filetime = "0.2"
walkdir = "2"
rayon = "1"
