[package]
name = "gestalt"
version = "0.1.0"
edition = "2021"
publish = false

[dependencies]
bytemuck = { version = "1", features = ["derive"] }
console_error_panic_hook = "0.1"
glam = "*"
js-sys = "0.3"
wasm-bindgen = "0.2"
wasm-bindgen-futures = "0.4"
web-sys = { version = "0.3", features = ["console", "HtmlCanvasElement"] }
wgpu = { version = "29", default-features = false, features = ["std", "wgsl", "webgpu"] }
