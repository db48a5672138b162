[package]
name = "step_loupe"
version = "0.1.0"
edition = "2021"
publish = false

[dependencies]
serde = { version = "1", features = ["derive"] }
serde_json = "1"
step-io = "0.2"
wasm-bindgen = "0.2"
