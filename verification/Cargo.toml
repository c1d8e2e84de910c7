[package]
name = "naqix_remote_support"
version = "0.1.0"
edition = "2021"
publish = false

[dependencies]
bytes = "1"
anyhow = "1"
async-trait = "*"
rand = "*"
rtc = "*"
serde_json = "1"
tokio = { version = "1", features = ["macros", "rt-multi-thread", "net", "io-util", "sync", "time"] }
webrtc = "*"
windows = { version = "*", features = ["Win32_Foundation", "Win32_Security", "Win32_System_StationsAndDesktops", "Win32_System_Threading", "Win32_System_Environment", "Win32_System_RemoteDesktop", "Win32_System_SystemInformation", "Win32_Media_MediaFoundation", "Win32_Graphics_Direct3D11", "Win32_System_Com", "Win32_System_Variant", "Win32_System_Ole"] }
windows-capture = "*"
windows-service = "*"
