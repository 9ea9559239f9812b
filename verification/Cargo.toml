[package]
name = "fastcull"
version = "0.1.0"
edition = "2021"
publish = false

[dependencies]
zune-core = "0.5"
zune-jpeg = "0.5"
turbojpeg = { version = "1", default-features = false, features = ["pkg-config"] }
winit = "0.30"
wgpu = { version = "24", default-features = false, features = ["wgsl"] }
pollster = "0.4"
muda = { version = "*", default-features = false }
rfd = { version = "0.15", default-features = false, features = ["xdg-portal", "tokio"] }
trash = "5"
