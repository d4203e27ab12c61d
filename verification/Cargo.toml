[package]
name = "dbgtools_win"
version = "0.2.1"
edition = "2021"
publish = false

[dependencies]
backtrace = "=0.3.76"
chrono = { version = "=0.4.45", default-features = false, features = ["clock", "std"] }
windows = { version = "=0.58.0", features = ["Win32_Foundation", "Win32_Security", "Win32_Storage_FileSystem", "Win32_System_Diagnostics_Debug", "Win32_System_Kernel", "Win32_System_Memory", "Win32_System_Threading"] }
