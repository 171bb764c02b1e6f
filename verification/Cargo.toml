[package]
name = "dns-ai"
version = "1.0.0"
edition = "2021"
publish = false

[dependencies]
anyhow = "=1.0.104"
log = "=0.4.35"
serde = { version = "1", features = ["derive"] }
serde_json = "1"
tokio = { version = "1", features = ["rt-multi-thread", "net", "io-util", "sync", "time", "macros", "signal"] }
reqwest = { version = "0.12", default-features = false, features = ["rustls-tls", "http2"] }
eframe = { version = "=0.37.0", default-features = false, features = ["glow", "wgpu_no_default_features", "x11"] }
wgpu = { version = "=30.0.1", default-features = false, features = ["dx12", "parking_lot"] }
tray-icon = { version = "=0.26.1", default-features = false, features = ["ksni"] }
windows-sys = { version = "0.59", features = ["Win32_Foundation", "Win32_Globalization", "Win32_NetworkManagement_IpHelper", "Win32_NetworkManagement_Ndis", "Win32_Networking_WinSock", "Win32_Security", "Win32_Security_Authorization", "Win32_Storage_FileSystem", "Win32_System_Com", "Win32_System_Console", "Win32_System_LibraryLoader", "Win32_System_Registry", "Win32_System_Services", "Win32_System_SystemInformation", "Win32_System_Threading", "Win32_UI_Shell", "Win32_UI_WindowsAndMessaging"] }
winreg = "=0.55.0"
windows-service = "=0.8.1"
