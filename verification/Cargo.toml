[package]
name = "solitaire_ecs"
version = "0.1.0"
edition = "2021"
publish = false

[dependencies]
rand = "0.8"
hecs = "0.10"
serde = { version = "1", features = ["derive"] }
serde_json = "1"
log = "0.4"
wasm-bindgen = "0.2"
js-sys = "0.3"
web-sys = { version = "0.3", features = ["console", "Window", "Document", "Element", "HtmlCanvasElement", "CanvasRenderingContext2d", "MouseEvent", "Event", "EventTarget", "ErrorEvent", "MessageEvent", "WebSocket", "DomRect"] }
console_error_panic_hook = "0.1"

[dev-dependencies]
wasm-bindgen-test = "0.3"
