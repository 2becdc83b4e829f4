[package]
name = "pyusp"
version = "0.1.0"
edition = "2021"
publish = false

[dependencies]
serde_json = "1"
windows = { version = "0.58", features = ["Win32_Foundation", "Win32_Globalization", "Win32_Graphics_Gdi", "Win32_System_LibraryLoader", "Win32_System_Memory", "Win32_System_Threading"] }
