[package]
name = "amogus"
version = "0.1.0"
edition = "2021"
publish = false

[dependencies]
console_error_panic_hook = "=0.1.7"
image = { version = "=0.24.9", default-features = false }
num = "=0.4.3"
rand = "=0.8.8"
wasm-bindgen = "=0.2.129"
web-sys = { version = "=0.3.106", features = ["CanvasRenderingContext2d", "ImageData", "console"] }
