[package]
name = "puzzle15"
version = "0.1.0"
edition = "2021"
publish = false

[dependencies]
bytemuck = "1"
console_error_panic_hook = "0.1"
rand = "0.8"
wasm-bindgen = "0.2"
wasm-bindgen-futures = "0.4"
web-sys = { version = "0.3", features = ["Document", "Element", "HtmlCanvasElement", "MouseEvent", "Window", "console"] }
wgpu = "0.19"
