[package]
name = "whispeross"
version = "0.1.0"
edition = "2021"
publish = false

[dependencies]
base64 = "0.22"
serde = { version = "1", features = ["derive"] }
serde_json = "1"
keyring = { version = "3", features = ["windows-native"] }
reqwest = { version = "0.12", default-features = false, features = ["blocking", "multipart", "json"] }
tokio = { version = "1", features = ["rt", "time", "sync", "net", "macros"] }
tokio-tungstenite = "0.26"
futures-util = "0.3"
cpal = "0.15"
windows = { version = "0.61", features = ["Win32_Foundation", "Win32_System_DataExchange", "Win32_System_Memory", "Win32_System_LibraryLoader", "Win32_UI_Input_KeyboardAndMouse", "Win32_UI_WindowsAndMessaging", "Win32_System_Registry", "Win32_Graphics_Dwm", "Win32_UI_Controls"] }
