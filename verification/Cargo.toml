[package]
name = "bevy_drm_vk"
version = "0.1.0"
edition = "2021"
publish = false

[dependencies]
drm = "=0.14.1"
drm-ffi = "=0.9.1"
raw-window-handle = "=0.6.2"
bevy = { version = "=0.17.3", default-features = false, features = ["bevy_render", "bevy_window", "bevy_log"] }
