[package]
name = "vallis"
version = "0.1.0"
edition = "2021"
publish = false

[dependencies]
wayland-backend = "0.3"
wayland-client = "0.31"
wayland-scanner = "0.31"
