[package]
name = "oxirast"
version = "1.0.0"
edition = "2021"
publish = false

[dependencies]
proc-macro2 = "1"
syn = { version = "2", features = ["full"] }
axum = { version = "0.7", features = ["ws"] }
tokio = { version = "1", features = ["full"] }
tower-http = { version = "0.5", features = ["fs"] }
notify = "6"
wasm-bindgen = "0.2"
wasm-bindgen-futures = "0.4"
web-sys = { version = "0.3", features = ["Window", "Document", "Element", "HtmlElement", "Node", "NodeList", "Event", "Text", "History", "Location", "CssStyleDeclaration", "console"] }
reqwest = { version = "0.12", default-features = false, features = ["json"] }
serde = { version = "1", features = ["derive"] }
