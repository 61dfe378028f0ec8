[package]
name = "numera"
version = "0.1.0"
edition = "2021"
publish = false

[dependencies]
ab_glyph = "=0.2.32"
anyhow = "=1.0.104"
image = { version = "=0.25.10", default-features = false, features = ["jpeg", "png"] }
imageproc = { version = "=0.26.2", default-features = false, features = ["rayon", "text"] }
lru = "=0.19.0"
memmap2 = "=0.9.12"
mimalloc = "=0.1.52"
oar-ocr = { version = "=0.8.1", default-features = false }
opencv = { version = "=0.101.1", default-features = false, features = ["calib3d", "features2d", "imgcodecs", "imgproc"] }
ort = { version = "=2.0.0-rc.12", default-features = false, features = ["std", "load-dynamic", "api-24"] }
parking_lot = "=0.13.0"
pdf-writer = "=0.15.0"
rapidhash = "=4.5.1"
rayon = "=1.12.0"
rfd = { version = "=0.16.1", default-features = false, features = ["xdg-portal", "tokio"] }
rusqlite = { version = "=0.41.1", features = ["bundled"] }
scc = "=3.8.8"
tokio = { version = "=1.54.1", features = ["macros", "rt-multi-thread"] }
turbojpeg = "=1.5.1"
