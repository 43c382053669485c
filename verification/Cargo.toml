[package]
name = "rwat"
version = "0.1.0"
edition = "2021"
publish = false

[dependencies]
wast = "=263.0.0"
wasmparser = "=0.263.0"
wasm-encoder = "=0.263.0"

[dev-dependencies]
wasmprinter = "=0.255.0"
