[package]
name = "life_session"
version = "0.1.0"
edition = "2021"
publish = false

[dependencies]
wasm-bindgen = "=0.2.129"
js-sys = "=0.3.106"
web-sys = { version = "=0.3.106", features = ["Element", "CanvasRenderingContext2d", "ImageData"] }
lazy_static = "=1.5.1"
