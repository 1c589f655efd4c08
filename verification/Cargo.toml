[package]
name = "spotlight"
version = "0.1.0"
edition = "2021"
publish = false

[dependencies]
global-hotkey = "0.6"
image = { version = "0.25", default-features = false, features = ["png", "ico", "jpeg", "bmp"] }
winreg = "0.52"
