[package]
name = "mandelbrot"
version = "0.1.0"
edition = "2021"
publish = false

[dependencies]
wasm-bindgen = "0.2"
web-sys = { version = "0.3", features = ["CanvasRenderingContext2d", "Document", "Element", "HtmlCanvasElement", "ImageData", "WebGlRenderingContext", "Window"] }
yew = { version = "0.21", features = ["csr"] }
gloo-console = "0.3"
