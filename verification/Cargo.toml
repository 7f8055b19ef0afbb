[package]
name = "cocoa_way"
version = "0.1.0"
edition = "2021"
publish = false

[dependencies]
gl = "0.14"
glutin = "0.31"
glutin-winit = "0.4"
log = "0.4"
raw-window-handle = "0.5"
wayland-client = "0.31"
winit = { version = "0.29", features = ["rwh_05"] }
