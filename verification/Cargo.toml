[package]
name = "vinland"
version = "0.1.0"
edition = "2021"
publish = false

[dependencies]
smithay = { version = "*", default-features = false, features = ["backend_winit", "desktop", "wayland_frontend", "xwayland", "renderer_gl"] }
calloop = "*"
notify = "*"
serde = { version = "1", features = ["derive"] }
serde_json = "1"
toml = "*"
tracing = "0.1"
tracing-subscriber = "0.3"
image = { version = "0.25", default-features = false, features = ["png", "jpeg", "webp"] }
xcursor = "*"
