[package]
name = "tts_air"
version = "0.1.0"
edition = "2021"
publish = false

[dependencies]
serde_json = "*"
tungstenite = "*"
log = "*"
env_logger = "*"
windows-sys = { version = "*", features = ["Win32_Foundation", "Win32_Storage_FileSystem", "Win32_System_Pipes", "Win32_System_IO", "Win32_System_Threading", "Win32_System_LibraryLoader"] }
