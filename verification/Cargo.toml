[package]
name = "pc_solver"
version = "0.1.0"
edition = "2021"
publish = false

[dependencies]
petgraph = { version = "0.6", default-features = false }
wasm-bindgen = "0.2"
js-sys = "0.3"
