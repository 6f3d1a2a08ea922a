[package]
name = "copy-camel"
version = "0.1.0"
edition = "2021"
publish = false

[dependencies]
copypasta = "0.8"
lazy_static = "1"
serde = { version = "1", features = ["derive"] }
serde-wasm-bindgen = "*"
sqlite = "*"
sycamore = { version = "0.8", features = ["suspense"] }
wasm-bindgen = "0.2"
wasm-bindgen-futures = "0.4"
