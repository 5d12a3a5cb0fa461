[package]
name = "cheap_note"
version = "0.1.0"
edition = "2021"
publish = false

[dependencies]
anyhow = "=1.0.104"
crc32fast = "=1.5.4"
image = { version = "=0.25.10", default-features = false }
lz4_flex = "=0.14.0"
pdfium-render = "*"
raw-window-handle = "=0.6.2"
serde = { version = "=1.0.229", features = ["derive"] }
serde_json = "=1.0.154"
thiserror = "=2.0.21"
windows = { version = "0.62", features = ["Win32_System_LibraryLoader", "Win32_Foundation"] }
zip = { version = "=8.6.0", default-features = false, features = ["deflate"] }
zstd = "=0.14.3"
