[package]
name = "nothing"
version = "0.6.1"
edition = "2021"
publish = false

[dependencies]
anyhow = "=1.0.104"
bincode = "=1.3.3"
chrono = { version = "=0.4.45", features = ["serde"] }
clap = { version = "=4.6.7", features = ["derive"] }
crossterm = "=0.27.0"
notify = "=6.1.1"
ntfs = "=0.4.0"
ntfs-reader = "*"
nucleo-matcher = "=0.3.1"
serde = { version = "=1.0.229", features = ["derive"] }
serde_json = "=1.0.154"
usn-journal-rs = "*"
walkdir = "=2.5.0"
windows = { version = "0.58", features = ["Win32_Foundation", "Win32_Storage_FileSystem", "Win32_Security"] }
