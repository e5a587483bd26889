[package]
name = "paperback"
version = "0.1.0"
edition = "2021"
publish = false

[dependencies]
mathcat = { version = "*", features = ["include-zip"] }
roxmltree = "*"
scraper = "*"
tracing = "*"
patois = "*"
live-region = "*"
wxdragon = "*"
windows = { version = "*", features = ["Win32_Foundation", "Win32_System_Threading", "Win32_UI_Input_KeyboardAndMouse", "Win32_UI_WindowsAndMessaging"] }
