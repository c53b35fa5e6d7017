[package]
name = "kaiser_core"
version = "0.1.0"
edition = "2021"
publish = false

[dependencies]
serde = { version = "=1.0.229", features = ["derive"] }
serde_json = "=1.0.154"
anyhow = "=1.0.104"
log = "=0.4.35"
env_logger = "=0.11.11"
com-policy-config = "=0.6.0"
windows = { version = "=0.61.3", features = ["Win32_Devices_Display", "Win32_Foundation", "Win32_Graphics_Gdi", "Win32_System_Com", "Win32_System_Com_StructuredStorage", "Win32_UI_ColorSystem", "Win32_UI_Shell", "Win32_UI_Shell_PropertiesSystem", "Win32_Media_Audio", "Win32_Media_Audio_Endpoints", "Win32_Devices_FunctionDiscovery", "Win32_System_Variant"] }
