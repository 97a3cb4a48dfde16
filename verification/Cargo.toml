[package]
name = "bdo_discord_rpc"
version = "0.1.0"
edition = "2021"
publish = false

[dependencies]
chrono = "0.4"
scraper = "0.23"
ureq = "2"
serde = { version = "1", features = ["derive"] }
serde_json = "1"
toml = "0.8"
discord-rich-presence = "0.2"
dirs = "6"
windows-sys = { version = "0.59", features = ["Win32_Foundation", "Win32_System_Threading", "Win32_System_Diagnostics_ToolHelp", "Win32_System_Console", "Win32_System_Registry", "Win32_UI_WindowsAndMessaging", "Win32_Globalization"] }
rust-i18n = "3"
png = "0.17"
