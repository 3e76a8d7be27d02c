[package]
name = "usage-tank"
version = "0.1.0"
edition = "2021"
publish = false

[dependencies]
serde = { version = "1", features = ["derive"] }
serde_json = "1"
ureq = { version = "3", features = ["native-tls", "platform-verifier", "json"] }
dirs = "*"
raw-window-handle = "0.6"
windows = { version = "0.61", features = ["Win32_Foundation", "Win32_System_Registry", "Win32_Globalization", "Win32_Security_Cryptography", "Win32_UI_WindowsAndMessaging", "Win32_UI_Shell", "Win32_System_LibraryLoader", "Win32_Graphics_Gdi"] }
