[package]
name = "blueis"
version = "0.1.0"
edition = "2021"
publish = false

[dependencies]
rusqlite = { version = "*", features = ["bundled"] }
resp = "*"
time = "0.1"
libc = "*"
