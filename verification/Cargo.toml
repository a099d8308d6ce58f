[package]
name = "rustdrop"
version = "0.1.0"
edition = "2021"
publish = false

[dependencies]
percent-encoding = "2"
constant_time_eq = "0.3"
getrandom = "0.2"
sha2 = "0.10"
axum = "0.7"
tokio = { version = "1", features = ["full"] }
tokio-util = { version = "0.7", features = ["io"] }
tower-http = { version = "0.5", features = ["cors", "trace", "fs"] }
tracing = "0.1"
tracing-subscriber = { version = "0.3", features = ["env-filter"] }
serde = { version = "1", features = ["derive"] }
serde_json = "1"
chrono = { version = "0.4", features = ["serde"] }
rand = "0.8"
yew = { version = "0.21", features = ["csr"] }
web-sys = { version = "0.3", features = ["DataTransfer", "File", "FileList", "HtmlInputElement", "HtmlElement", "Window", "Document", "Element", "Storage", "MediaQueryList", "Performance", "Blob", "DragEvent", "ClipboardEvent", "Location"] }
js-sys = "0.3"
wasm-bindgen = "0.2"
wasm-bindgen-futures = "0.4"
gloo-net = "0.5"
gloo-timers = { version = "0.3", features = ["futures"] }
gloo-utils = "0.2"
