[package]
name = "nostr_analytics"
version = "0.1.0"
edition = "2021"
publish = false

[dependencies]
whatlang = "=0.16.4"
serde = { version = "=1.0.229", features = ["derive"] }
serde_json = "=1.0.154"
serde-wasm-bindgen = "=0.6.5"
wasm-bindgen = "=0.2.129"
js-sys = "=0.3.106"
nostr = "=0.39.0"
thiserror = "=2.0.21"
