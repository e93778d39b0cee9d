[package]
name = "game_of_life"
version = "0.1.0"
edition = "2021"
publish = false

[dependencies]
wasm-bindgen = "*"
js-sys = "*"
web-sys = { version = "*", features = ["HtmlCanvasElement", "CanvasRenderingContext2d"] }
console_error_panic_hook = "*"
