[package]
name = "ottd_map_parser"
version = "0.1.0"
edition = "2021"
publish = false

[dependencies]
lzma-rs = "*"
xz2 = "*"
zstd = "*"
serde = { version = "1", features = ["derive"] }
serde_json = "1"
serde_bytes = "*"
wasm-bindgen = "*"
serde-wasm-bindgen = "*"
gloo-utils = { version = "*", features = ["serde"] }
console_error_panic_hook = "*"
