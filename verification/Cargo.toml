[package]
name = "chat_core"
version = "0.1.0"
edition = "2021"
publish = false

[dependencies]
snow = "0.9"
sha2 = "0.10"
rand = "0.8"
chrono = "0.4"
serde = { version = "1", features = ["derive"] }
serde_json = "1"
rfd = "0.15"
arboard = { version = "3", default-features = false }
windows-sys = { version = "0.59", features = ["Win32_Networking_WinSock", "Win32_Foundation"] }
