[package]
name = "spellbook"
version = "0.1.0"
edition = "2021"
publish = false

[dependencies]
regex = "*"
serde = { version = "*", features = ["derive"] }
yew = { version = "*", features = ["csr"] }
gloo-storage = "*"
gloo-console = "*"
wasm-bindgen = "*"
web-sys = { version = "*", features = ["Window", "Document", "Element", "EventTarget", "HtmlInputElement", "HtmlSelectElement", "HtmlTextAreaElement"] }
