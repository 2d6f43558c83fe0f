[package]
name = "tcping"
version = "0.1.0"
edition = "2021"
publish = false

[dependencies]
colored = "*"
winapi = { version = "0.3", features = ["wincon", "winnt"] }
