[package]
name = "ars"
version = "0.1.0"
edition = "2021"
publish = false

[dependencies]
ahash = "=0.8.12"
anyhow = "=1.0.104"
axum = "=0.6.20"
bytes = "=1.12.1"
envy = "=0.4.2"
flate2 = "=1.1.10"
js-sys = "=0.3.106"
mime = "=0.3.17"
mime_guess = "=2.0.4"
serde = { version = "=1.0.229", features = ["derive"] }
serde_json = "=1.0.154"
thiserror = "=1.0.69"
tracing = "=0.1.44"
wasm-bindgen = "=0.2.129"
