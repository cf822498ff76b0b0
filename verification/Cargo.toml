[package]
name = "skwd-paper"
version = "0.1.0"
edition = "2021"
publish = false

[dependencies]
libc = "*"
serde_json = "*"
dav1d = "*"
smithay-client-toolkit = { version = "*", default-features = false }
wayland-client = "*"
wayland-protocols = { version = "*", features = ["client", "staging"] }
wayland-protocols-wlr = { version = "*", features = ["client"] }
