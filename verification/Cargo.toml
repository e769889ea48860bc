[package]
name = "rust_bao"
version = "0.1.0"
edition = "2021"
publish = false

[dependencies]
blake3 = "1"
wasm-bindgen = "0.2"
