[package]
name = "lab_transform"
version = "0.1.0"
edition = "2021"
publish = false

[dependencies]
palette = { version = "0.7", default-features = false, features = ["std"] }
wasm-bindgen = "0.2"
console_error_panic_hook = "0.1"
