[package]
name = "minesweeper"
version = "0.1.0"
edition = "2021"
publish = false

[dependencies]
rand = "0.8"
nanoid = "0.4"
jwt = "0.16"
hmac = "0.12"
sha2 = "0.10"
serde = { version = "1", features = ["derive"] }
serde_json = "1"
bitcode = { version = "0.6", features = ["serde"] }
actix = "0.13"
actix-web = "4"
actix-web-actors = "4"
actix-files = "0.6"
tokio = { version = "1", features = ["rt", "macros", "sync"] }
env_logger = "0.10"
futures-util = "0.3"
yew = { version = "0.20", features = ["csr"] }
yew-router = "0.17"
gloo = "0.8"
gloo-net = "0.2"
wasm-bindgen = "0.2"
wasm-bindgen-futures = "0.4"
js-sys = "0.3"
wasm-cookies = "0.2"
web-sys = { version = "0.3", features = ["HtmlCanvasElement", "CanvasRenderingContext2d", "HtmlImageElement", "HtmlInputElement", "HtmlDocument", "HtmlElement", "MouseEvent", "WebSocket", "MessageEvent", "BinaryType", "Event", "Url", "Window", "Location", "Document", "Element", "console"] }
