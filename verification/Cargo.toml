[package]
name = "djed"
version = "0.1.0"
edition = "2021"
publish = false

[dependencies]
wasm-bindgen = "0.2"
js-sys = "0.3"
log = "0.4"
gloo = "0.2"
web-sys = { version = "0.3", features = [
    "Window",
    "Document",
    "Element",
    "Node",
    "Text",
    "CharacterData",
    "HtmlElement",
    "HtmlInputElement",
    "HtmlTextAreaElement",
    "HtmlButtonElement",
    "Event",
    "EventTarget",
    "MessageEvent",
    "WebSocket",
    "BinaryType",
] }
