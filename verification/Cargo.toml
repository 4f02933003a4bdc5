[package]
name = "ssredirector"
version = "0.1.0"
edition = "2021"
publish = false

[dependencies]
rust-ini = "=0.21.3"
detours-rs = "=0.2.0"
windows = { version = "=0.58.0", features = ["Win32_Foundation", "Win32_Security", "Win32_Storage_FileSystem", "Win32_System_Console", "Win32_System_Diagnostics_Debug", "Win32_System_Kernel", "Win32_System_LibraryLoader", "Win32_System_Memory", "Win32_System_SystemInformation", "Win32_System_SystemServices", "Win32_System_Threading", "Win32_Globalization"] }
