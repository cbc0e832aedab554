[package]
name = "chaichess"
version = "0.1.0"
edition = "2021"
publish = false

[dependencies]
rand = "0.8"
serde = { version = "1", features = ["derive"] }
serde_json = "1"
tui = "0.19"
crossterm = "0.25"
wasm-bindgen = "0.2"
console_error_panic_hook = "0.1"
