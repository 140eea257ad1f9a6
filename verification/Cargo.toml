[package]
name = "carson"
version = "0.1.0"
edition = "2021"
publish = false

[dependencies]
anyhow = "=1.0.104"
axum = "=0.8.9"
base64 = "=0.22.1"
clap = { version = "=4.6.7", features = ["derive"] }
futures-util = "=0.3.34"
js-sys = "0.3"
leptos = { version = "*", default-features = false, features = ["csr"] }
leptos_router = { version = "*", default-features = false }
pulldown-cmark = "=0.13.6"
reqwest = { version = "=0.12.28", default-features = false, features = ["json", "stream"] }
rusqlite = { version = "=0.37.0", features = ["bundled"] }
serde = { version = "=1.0.229", features = ["derive"] }
serde_json = "=1.0.154"
tokio = { version = "=1.54.1", features = ["full"] }
toml = "=1.1.8"
uuid = { version = "=1.29.0", features = ["v4", "v5"] }
wasm-bindgen = "0.2"
wasm-bindgen-futures = "0.4"
wasmtime = { version = "=43.0.2", default-features = false, features = ["async", "component-model", "cranelift", "runtime", "std"] }
wasmtime-wasi = { version = "=43.0.2", default-features = false, features = ["p2"] }
web-sys = { version = "0.3", features = ["Document", "Element", "Event", "File", "FileList", "FileReader", "Headers", "HtmlElement", "HtmlInputElement", "KeyboardEvent", "MouseEvent", "ProgressEvent", "ReadableStream", "ReadableStreamDefaultReader", "Request", "RequestInit", "Response", "Storage", "TextDecoder", "Window"] }
