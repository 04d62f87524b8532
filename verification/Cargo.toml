[package]
name = "onon_render"
version = "0.1.0"
edition = "2021"
publish = false

[dependencies]
naga = { version = "=28.0.0", features = ["wgsl-in"] }
wgpu = "=28.0.0"
winit = "=0.30.13"
pollster = "*"
env_logger = "*"
log = "*"
anyhow = "*"
image = { version = "*", default-features = false, features = ["png", "jpeg"] }
bytemuck = { version = "*", features = ["derive"] }
glam = { version = "*", features = ["bytemuck"] }
parking_lot = "*"
cfg-if = "*"
console_error_panic_hook = "*"
console_log = "*"
fern = "*"
wasm-bindgen = "*"
wasm-bindgen-futures = "*"
web-sys = { version = "*", features = ["Window", "Document", "Element", "HtmlElement", "HtmlCanvasElement", "Location", "CssStyleDeclaration", "Node"] }
web-time = "*"
