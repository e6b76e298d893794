[package]
name = "ell_http"
version = "0.1.0"
edition = "2021"
publish = false

[dependencies]
anyhow = "1"
base64 = "0.22"
chrono = "0.4"
crossbeam = "0.8"
inventory = "0.3"
once_cell = "1"
paste = "1"
tokio = { version = "1", features = ["rt"] }
turso = "*"
windows = { version = "*", features = ["Win32_Foundation", "Win32_System_LibraryLoader", "Win32_System_Memory", "Win32_System_ProcessStatus", "Win32_System_SystemServices", "Win32_System_Threading", "Win32_Networking_WinHttp"] }
windows-strings = "*"
windows-sys = { version = "*", features = ["Win32_Foundation", "Win32_Networking_WinHttp"] }
