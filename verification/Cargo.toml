[package]
name = "maps_to_gpx"
version = "0.1.0"
edition = "2021"
publish = false

[dependencies]
url = "*"
quick-xml = "*"
serde = { version = "*", features = ["derive"] }
serde_json = "*"
wasm-bindgen = "*"
serde-wasm-bindgen = "*"
console_error_panic_hook = "*"
