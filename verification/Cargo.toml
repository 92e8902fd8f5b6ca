[package]
name = "em_engine"
version = "0.1.0"
edition = "2021"
publish = false

[dependencies]
num-complex = { version = "0.4", features = ["serde"] }
serde = { version = "1", features = ["derive"] }
serde_json = "1"
serde-wasm-bindgen = "0.6"
thiserror = "1"
wasm-bindgen = "0.2"
