[package]
name = "clicker_core"
version = "0.1.0"
edition = "2021"
publish = false

[dependencies]
enigo = "*"
device_query = "*"
winit = "*"
wayland-client = "*"
