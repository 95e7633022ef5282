[package]
name = "doom_fire"
version = "0.1.0"
edition = "2021"
publish = false

[dependencies]
rand = "=0.7.3"
rand_xoshiro = "=0.4.0"
yew = { version = "=0.16.2", features = ["web_sys"] }
wasm-bindgen = "=0.2.129"
js-sys = "=0.3.106"
web-sys = { version = "=0.3.106", features = ["HtmlCanvasElement", "CanvasRenderingContext2d", "ImageData", "MouseEvent", "Element", "DomRect"] }
