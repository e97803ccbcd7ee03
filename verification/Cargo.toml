[package]
name = "wasm_split_analyzer"
version = "0.1.0"
edition = "2021"
publish = false

[dependencies]
walrus = "*"
wasmparser = "*"
rustc-demangle = "*"
