[package]
name = "pixel-analyzer"
version = "0.1.6"
edition = "2021"
publish = false

[dependencies]
png = "0.18"
zune-jpeg = "0.5"
image-webp = "0.2"
serde = { version = "1", features = ["derive"] }
wasm-bindgen = "0.2"
js-sys = "0.3"
wasm-bindgen-futures = "0.4"
serde-wasm-bindgen = "0.6"
console_error_panic_hook = "0.1"
