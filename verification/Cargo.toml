[package]
name = "blockfall"
version = "0.1.0"
edition = "2021"
publish = false

[dependencies]
rand = "0.8"
log = "*"
wasm-bindgen = "*"
web-sys = { version = "*", default-features = false, features = ["HtmlCanvasElement", "HtmlElement", "CanvasRenderingContext2d"] }
