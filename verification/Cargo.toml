[package]
name = "embedded_graphics_web_simulator"
version = "0.1.0"
edition = "2021"
publish = false

[dependencies]
embedded-graphics = "*"
wasm-bindgen = "*"
web-sys = { version = "*", features = ["CanvasRenderingContext2d", "Document", "Element", "HtmlCanvasElement", "HtmlElement", "ImageData", "Node", "Window"] }
