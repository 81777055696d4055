[package]
name = "mv_toolkit"
version = "0.1.0"
edition = "2021"
publish = false

[dependencies]
itoa = "=1.0.18"
ryu = "=1.0.23"
chrono = "=0.4.45"
libc = "=0.2.191"
serde = { version = "=1.0.229", features = ["derive"] }
serde_json = "=1.0.154"
minijinja = "=2.24.0"
glob = "=0.3.4"
uuid = { version = "=1.29.0", features = ["v4"] }
reqwest = { version = "=0.12.28", default-features = false, features = ["blocking", "multipart"] }
regex = "=1.13.1"
inferno = { version = "=0.12.8", default-features = false }
plotters = { version = "=0.3.7", default-features = false, features = ["bitmap_backend", "bitmap_encoder", "all_elements", "ab_glyph"] }
ffmpeg-next = "*"
ffmpeg-sys-next = "*"
opencv = "*"
