[package]
name = "rogue_adventure"
version = "0.1.0"
edition = "2021"
publish = false

[dependencies]
rand = "0.8"
bevy = { version = "0.15", default-features = false, features = ["bevy_state", "bevy_text", "bevy_ui", "bevy_sprite", "bevy_render", "bevy_core_pipeline", "bevy_asset", "bevy_window", "bevy_color"] }
bevy_rapier2d = { version = "0.28", default-features = false, features = ["dim2"] }
wasm-bindgen = "0.2"
web-sys = { version = "0.3", features = ["Window", "Document", "Element", "HtmlElement", "CssStyleDeclaration", "Node"] }
