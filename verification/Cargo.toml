[package]
name = "local_gallery"
version = "0.1.0"
edition = "2021"
publish = false

[dependencies]
anyhow = "1"
chrono = { version = "0.4", default-features = false, features = ["std", "now"] }
dirs = "*"
hex = "0.4"
image = { version = "0.25", default-features = false, features = ["jpeg", "png", "gif", "bmp", "webp", "tiff", "ico"] }
log = "0.4"
notify = "*"
once_cell = "1"
rusqlite = { version = "*", features = ["bundled"] }
serde = { version = "1", features = ["derive"] }
serde_json = "1"
sha2 = "0.10"
tauri = { version = "2", default-features = false }
tauri-plugin-fs = "2"
tokio = { version = "1", features = ["rt"] }
uuid = { version = "1", features = ["v4"] }
walkdir = "2"
