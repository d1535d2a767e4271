[package]
name = "project-picker"
version = "0.1.0"
edition = "2021"
publish = false

[dependencies]
egui = "=0.29.1"
egui-phosphor = "=0.7.3"
egui-wgpu = "=0.29.1"
egui-winit = { version = "=0.29.1", default-features = false, features = ["wayland"] }
wgpu = { version = "=22.1.0", default-features = false, features = ["wgsl"] }
winit = { version = "=0.30.13", default-features = false, features = ["wayland", "wayland-dlopen", "rwh_06"] }
pollster = "=0.3.0"
glob = "=0.3.4"
resvg = { version = "=0.42.0", default-features = false }
usvg = { version = "=0.42.0", default-features = false }
tiny-skia = "=0.11.4"
serde_json = "1"
