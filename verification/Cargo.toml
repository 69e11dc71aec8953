[package]
name = "terminal"
version = "0.1.0"
edition = "2021"
publish = false

[dependencies]
unicode-width = "0.1"
regex = "1"
base64 = "0.22"
image = { version = "0.25", default-features = false, features = ["png", "jpeg", "gif", "bmp"] }
serde = { version = "1", features = ["derive"] }
toml = "0.8"
chrono = "0.4"
tokio = { version = "1", features = ["rt", "sync", "macros"] }
russh = "0.44"
russh-keys = "0.44"
async-trait = "0.1"
