[package]
name = "nbview"
version = "0.1.0"
edition = "2021"
publish = false

[dependencies]
base64 = "=0.23.1"
clap = { version = "=4.6.7", features = ["derive"] }
dirs = "=7.0.0"
image = { version = "=0.25.10", default-features = false, features = ["png", "jpeg"] }
serde_json = { version = "=1.0.151", features = ["preserve_order"] }
termimad = "=0.35.5"
unicode-width = "*"
viuer = "=0.11.0"
