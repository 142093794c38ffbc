[package]
name = "packing_interface"
version = "0.1.0"
edition = "2021"
publish = false

[dependencies]
rand = "0.9"
serde = { version = "1", features = ["derive"] }
serde_json = "1"
ordered-float = { version = "5", features = ["serde"] }
iced = { version = "0.13", default-features = false, features = ["tiny-skia", "fira-sans", "canvas", "tokio"] }
