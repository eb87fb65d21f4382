[package]
name = "grapher"
version = "0.1.0"
edition = "2021"
publish = false

[dependencies]
fancy-regex = "=0.20.0"
num-complex = { version = "=0.4.6", features = ["serde"] }
serde = { version = "=1.0.229", features = ["derive"] }
serde_json = "=1.0.154"
wasm-bindgen = "=0.2.130"
web-sys = { version = "=0.3.107", features = ["OffscreenCanvasRenderingContext2d"] }
