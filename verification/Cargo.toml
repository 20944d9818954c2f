[package]
name = "cidr_calc"
version = "0.1.0"
edition = "2021"
publish = false

[dependencies]
ipnetwork = { version = "*", default-features = false }
serde = { version = "1", features = ["derive"] }
wasm-bindgen = "0.2"
gloo-utils = { version = "*", features = ["serde"] }
