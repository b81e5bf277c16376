[package]
name = "orbit_lib"
version = "0.1.0"
edition = "2021"
publish = false

[dependencies]
sgp4 = "2"
serde = { version = "1", features = ["derive"] }
serde-wasm-bindgen = "*"
wasm-bindgen = "*"
ts-rs = "*"
uom = "*"
