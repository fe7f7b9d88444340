[package]
name = "devtools_core"
version = "0.1.0"
edition = "2021"
publish = false

[dependencies]
base64 = "=0.22.1"
image = { version = "=0.25.10", default-features = false, features = ["png", "jpeg", "gif", "bmp", "webp"] }
log = "=0.4.34"
serde_json = "=1.0.154"
wasm-bindgen = "0.2"
wasm-bindgen-futures = "0.4"
web-sys = { version = "0.3", features = ["Clipboard", "HtmlTextAreaElement", "Navigator", "Window"] }
yew = { version = "0.21", features = ["csr"] }
