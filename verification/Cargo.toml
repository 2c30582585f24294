[package]
name = "kaleidoscope"
version = "0.1.0"
edition = "2021"
publish = false

[dependencies]
console_error_panic_hook = "*"
js-sys = "*"
wasm-bindgen = "*"
web-sys = { version = "*", features = ["CanvasGradient", "CanvasPattern", "CanvasRenderingContext2d", "Document", "Element", "HtmlCanvasElement", "HtmlElement", "HtmlImageElement", "ImageData", "OffscreenCanvas", "OffscreenCanvasRenderingContext2d", "Window", "console"] }
