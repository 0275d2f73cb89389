[package]
name = "hyprlauncher"
version = "0.1.0"
edition = "2021"
publish = false

[dependencies]
shlex = "*"
anyhow = "*"
log = "*"
env_logger = "*"
serde = { version = "*", features = ["derive"] }
serde_json = "*"
fontdue = "*"
image = { version = "*", default-features = false, features = ["png", "jpeg", "webp"] }
resvg = "*"
tiny-skia = "*"
smithay-client-toolkit = "*"
wayland-client = "*"
calloop = "*"
calloop-wayland-source = "*"
