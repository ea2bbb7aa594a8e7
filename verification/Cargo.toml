[package]
name = "blabla"
version = "0.1.0"
edition = "2021"
publish = false

[dependencies]
getrandom = "0.3"
libc = "0.2"
serde = { version = "1", features = ["derive"] }
serde_json = "1"
clap = { version = "4", features = ["derive"] }
tempfile = "3"
windows-sys = "*"
