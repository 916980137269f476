[package]
name = "everyfile"
version = "0.1.0"
edition = "2021"
publish = false

[dependencies]
base64 = "=0.22.1"
bitvec = "=1.1.1"
chrono = "=0.4.45"
compact_str = "=0.8.2"
crossbeam-channel = "=0.5.17"
dirs = "=5.0.1"
glob = "=0.3.4"
lazy_static = "=1.5.1"
log = "=0.4.35"
ntfs = "=0.4.0"
rayon = "=1.12.0"
regex = "=1.13.1"
rusqlite = { version = "=0.31.0", features = ["bundled"] }
serde = { version = "=1.0.229", features = ["derive"] }
serde_json = "=1.0.154"
tokio = { version = "=1.54.1", features = ["full"] }
toml = "=0.8.23"
usn-journal-rs = "=0.4.1"
walkdir = "=2.5.0"
windows = { version = "=0.52.0", features = ["Win32_Foundation", "Win32_Graphics_Gdi", "Win32_Security", "Win32_Storage_FileSystem", "Win32_System_Com", "Win32_System_DataExchange", "Win32_System_IO", "Win32_System_Ioctl", "Win32_System_Memory", "Win32_System_Registry", "Win32_System_Threading", "Win32_UI_Controls", "Win32_UI_Shell", "Win32_UI_Shell_Common", "Win32_UI_WindowsAndMessaging"] }
winreg = "=0.52.0"
