[package]
name = "ember_terminal"
version = "0.1.0"
edition = "2021"
publish = false

[dependencies]
base64 = "0.22"
smallvec = "1"
unicode-normalization = "0.1"
uuid = { version = "1", features = ["v4"] }
