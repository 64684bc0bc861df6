[package]
name = "otterm"
version = "0.5.0"
edition = "2021"
publish = false

[dependencies]
ansi-to-tui = "7"
base64 = "0.22"
clap = { version = "4", features = ["derive"] }
crossterm = "0.28"
dirs = "*"
libc = "0.2"
portable-pty = "*"
qrcode = { version = "0.14", default-features = false }
ratatui = "0.29"
serde = { version = "1", features = ["derive"] }
serde_json = "1"
sha1 = "0.10"
signal-hook = "0.3"
strip-ansi-escapes = "0.2"

[dev-dependencies]
image = { version = "0.25", default-features = false }
rqrr = "*"
