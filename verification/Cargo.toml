[package]
name = "bigwig_blocks"
version = "0.1.0"
edition = "2021"
publish = false

[dependencies]
libdeflater = "*"
rustc_apfloat = "*"
wasm-bindgen = "*"
