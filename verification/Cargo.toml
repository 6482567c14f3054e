[package]
name = "testocr"
version = "0.1.0"
edition = "2021"
publish = false

[dependencies]
image = "0.25"
rusty-tesseract = "1"
lazy_static = "1"
rdev = "0.5"
scrap = "0.5"
windows = { version = "0.58", features = ["Win32_Foundation", "Win32_Graphics_Gdi", "Win32_System_LibraryLoader", "Win32_UI_WindowsAndMessaging"] }
