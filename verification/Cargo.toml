[package]
name = "px_kb_tool"
version = "0.1.0"
edition = "2021"
publish = false

[dependencies]
evdev = { version = "*", features = ["tokio"] }
evdev-rs = "*"
hidapi = "*"
libbpf-rs = "*"
tokio = { version = "*", features = ["full"] }
udev = "*"
serde = { version = "*", features = ["derive"] }
config = "*"
