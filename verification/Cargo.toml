[package]
name = "ytmdesktop"
version = "0.1.0"
edition = "2021"
publish = false

[dependencies]
serde = { version = "1", features = ["derive"] }
serde_json = "1"
tokio = { version = "1", features = ["sync", "macros", "rt"] }
discord-rich-presence = "1.1.0"
playwire = "2.0.0"
windows = { version = "0.62.2", features = ["Win32_UI_Shell"] }
global-hotkey = "0.7.0"
url = "2.5.8"
