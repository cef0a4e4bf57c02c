[package]
name = "herdr"
version = "0.1.0"
edition = "2021"
publish = false

[dependencies]
ab_glyph = "=0.2.32"
base64 = "=0.22.1"
crossterm = "=0.29.0"
ctrlc = "=3.5.2"
interprocess = "=2.4.7"
portable-pty = "=0.9.0"
ratatui = { version = "=0.29.0", default-features = false, features = ["underline-color"] }
regex = "=1.13.1"
serde = { version = "=1.0.229", features = ["derive"] }
serde_json = "=1.0.154"
tokio = { version = "=1.54.1", features = ["sync", "rt", "macros", "time"] }
toml = "=0.8.23"
toml_edit = "=0.22.27"
tracing = "=0.1.44"
wgpu = { version = "=27.0.1", default-features = false, features = ["std", "wgsl", "vulkan"] }
