[package]
name = "respo_route_demo"
version = "0.1.0"
edition = "2021"
publish = false

[dependencies]
respo = "*"
ruled-router = "*"
ruled-router-derive = "*"
serde = { version = "1", features = ["derive"] }
serde_json = "1"
wasm-bindgen = "0.2"
web-sys = { version = "0.3", features = ["Window", "Location", "History", "PopStateEvent", "Node", "Event", "EventTarget"] }
console_error_panic_hook = "0.1"
