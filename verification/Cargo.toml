[package]
name = "magicpad_companion"
version = "0.3.3"
edition = "2021"
publish = false

[dependencies]
chrono = { version = "=0.4.45", features = ["serde"] }
ctrlc = "=3.5.2"
dirs = "=5.0.1"
env_logger = "=0.11.11"
log = "=0.4.35"
nix = { version = "=0.29.0", features = ["user"] }
parking_lot = "=0.12.5"
serde = { version = "=1.0.229", features = ["derive"] }
serde_json = "=1.0.154"
thiserror = "=1.0.69"
uuid = { version = "=1.29.0", features = ["v4"] }
winreg = "=0.52.0"
tauri = { version = "=2.12.5", default-features = false }
windows = { version = "=0.62.2", features = ["Win32_Devices_DeviceAndDriverInstallation", "Win32_Foundation"] }
