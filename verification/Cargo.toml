[package]
name = "kernal_api"
version = "0.1.0"
edition = "2021"
publish = false

[dependencies]
cap-std = "=4.0.3"
console-subscriber = "=0.5.0"
libc = "0.2"
mach2 = "*"
object = "=0.37.3"
prost = "=0.14.4"
running-process = { version = "=4.10.21", default-features = false, features = ["async-process"] }
rusqlite = { version = "=0.41.1", features = ["bundled", "backup"] }
strsim = "=0.11.1"
tempfile = "=3.27.0"
thiserror = "2"
tokio = { version = "=1.53.1", features = ["full"] }
tracing-subscriber = "=0.3.23"
tree-sitter = "=0.26.13"
tree-sitter-cpp = "=0.23.4"
url = "=2.5.8"
windows-sys = { version = "=0.61.2", features = ["Win32_Foundation", "Win32_Security", "Win32_Security_Authorization", "Win32_Storage_FileSystem", "Win32_System_Console", "Win32_System_Diagnostics_ToolHelp", "Win32_System_IO", "Win32_System_Ioctl", "Win32_System_JobObjects", "Win32_System_Pipes", "Win32_System_ProcessStatus", "Win32_System_SystemServices", "Win32_System_Threading"] }
