[package]
name = "card_receipt"
version = "0.1.0"
edition = "2021"
publish = false

[dependencies]
chrono = { version = "=0.4.45", default-features = false, features = ["std"] }
regex = "=1.13.1"
image = { version = "=0.25.10", default-features = false, features = ["jpeg", "png"] }
zip = { version = "=9.0.5", default-features = false, features = ["deflate"] }
log = "=0.4.34"
env_logger = "=0.11.11"
serde = { version = "=1.0.229", features = ["derive"] }
eframe = { version = "=0.37.0", default-features = false, features = ["glow", "default_fonts", "x11"] }
egui = "=0.37.0"
egui_extras = "=0.37.0"
wasm-bindgen = "=0.2.129"
wasm-bindgen-futures = "=0.4.79"
js-sys = "=0.3.106"
web-sys = { version = "=0.3.106", features = ["Blob", "BlobPropertyBag", "CssStyleDeclaration", "Document", "Element", "HtmlAnchorElement", "HtmlCanvasElement", "HtmlElement", "Node", "Url", "Window"] }
console_error_panic_hook = "0.1"
