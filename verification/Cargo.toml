[package]
name = "media_catalog"
version = "0.1.0"
edition = "2021"
publish = false

[dependencies]
chrono = "0.4"
mime_guess = "2"
uuid = { version = "1", features = ["v4"] }
image = "0.25"
