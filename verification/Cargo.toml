[package]
name = "cosmic_comp"
version = "0.1.0"
edition = "2021"
publish = false

[dependencies]
anyhow = "=1.0.104"
calloop = "=0.14.5"
cosmic-protocols = { version = "0.2.0", features = ["server"] }
rand = "=0.8.8"
smithay = { version = "=0.7.0", default-features = false, features = ["backend_drm", "backend_egl", "backend_gbm", "backend_vulkan", "backend_x11", "desktop", "renderer_glow", "wayland_frontend"] }
tracing = "=0.1.44"
wayland-backend = "=0.3.17"
