[package]
name = "keyboard_recorder"
version = "0.1.0"
edition = "2021"
publish = false

[dependencies]
anyhow = "1"
chrono = "0.4"
clap = { version = "4", features = ["derive"] }
device_query = "*"
rusqlite = { version = "*", features = ["bundled"] }
windows-sys = { version = "*", features = ["Win32_Foundation", "Win32_System_Threading"] }
