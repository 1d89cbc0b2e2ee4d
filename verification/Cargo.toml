[package]
name = "hid_scanner"
version = "0.1.0"
edition = "2021"
publish = false

[dependencies]
hidapi = "2"
serde = { version = "1", features = ["derive"] }
tauri = { version = "2", default-features = false }
