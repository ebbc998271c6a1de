[package]
name = "screen_recorder"
version = "0.1.0"
edition = "2021"
publish = false

[dependencies]
image = { version = "*", default-features = false }
serde_json = "*"
chrono = "*"
dirs = "*"
sysinfo = "*"
