[package]
name = "websocket_client_async"
version = "0.1.0"
edition = "2021"
publish = false

[dependencies]
anyhow = "1"
aqueue = "*"
async-trait = "*"
futures-channel = "*"
futures-core = "*"
futures-io = "*"
futures-util = { version = "*", features = ["io"] }
js-sys = "*"
log = "*"
wasm-bindgen = "*"
wasm-bindgen-futures = "*"
web-sys = { version = "*", features = ["WebSocket", "MessageEvent", "ErrorEvent", "BinaryType", "Blob", "FileReader", "ProgressEvent"] }
