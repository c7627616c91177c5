[package]
name = "game_of_life"
version = "0.1.0"
edition = "2021"
publish = false

[dependencies]
anyhow = "1"
console_error_panic_hook = "0.1"
leptos = { version = "*", features = ["csr"] }
wasm-bindgen = "*"
web-sys = { version = "*", features = ["CanvasRenderingContext2d", "Event", "EventTarget", "HtmlCanvasElement", "HtmlInputElement", "MouseEvent", "Window"] }
