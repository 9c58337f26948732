[package]
name = "tower_defence"
version = "0.1.0"
edition = "2021"
publish = false

[dependencies]
serde = { version = "=1.0.229", features = ["derive"] }
serde_json = "=1.0.151"
wasm-bindgen = "=0.2.129"
