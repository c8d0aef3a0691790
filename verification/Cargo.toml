[package]
name = "img_to_ascii"
version = "1.3.0"
edition = "2021"
publish = false

[dependencies]
image = { version = "0.24", default-features = false, features = ["png", "jpeg"] }
colored = "2"
clap = "2"
webbrowser = "0.8"
