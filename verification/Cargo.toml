[package]
name = "gbfr_logs"
version = "0.1.0"
edition = "2021"
publish = false

[dependencies]
anyhow = "=1.0.104"
bincode = "=1.3.3"
log = "=0.4.35"
pelite = "=0.10.0"
retour = "0.4.0-alpha.1"
serde = { version = "=1.0.229", features = ["derive"] }
thiserror = "=1.0.69"
windows = { version = "=0.52.0", features = ["Win32_Foundation", "Win32_System_Diagnostics_Debug", "Win32_System_Diagnostics_ToolHelp"] }
