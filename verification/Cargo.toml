[package]
name = "tiling_compositor"
version = "0.1.0"
edition = "2021"
publish = false

[dependencies]
xkeysym = "*"
anyhow = "*"
log = "*"
pretty_env_logger = "*"
wayland-server = "*"
smithay = { version = "*", default-features = false, features = ["wayland_frontend", "desktop", "backend_winit", "renderer_gl"] }
