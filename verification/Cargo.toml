[package]
name = "pixelbox"
version = "0.1.0"
edition = "2021"
publish = false

[dependencies]
qoi = "=0.4.1"
kamadak-exif = "=0.6.1"
image = "*"
zip = "*"
glob = "*"
crossbeam = "*"
rusqlite = { version = "*", features = ["bundled", "functions"] }
parking_lot = "*"
anyhow = "*"
serde_json = "*"
