[package]
name = "pmux"
version = "0.1.0"
edition = "2021"
publish = false

[dependencies]
clap = { version = "4", features = ["derive"] }
tokio = { version = "1", features = ["full"] }
vte = "0.13"
libc = "0.2"
nix = { version = "0.29", features = ["process", "signal", "fs"] }
rustix = { version = "0.38", features = ["pty", "fs", "process"] }
windows-sys = { version = "0.52", features = ["Win32_Foundation", "Win32_System_Console", "Win32_Storage_FileSystem", "Win32_System_JobObjects", "Win32_System_Pipes", "Win32_System_Threading", "Win32_System_LibraryLoader", "Win32_Security"] }
