[package]
name = "cctop"
version = "0.1.0"
edition = "2021"
publish = false

[dependencies]
anyhow = "=1.0.104"
chrono = "=0.4.45"
crossterm = "=0.29.0"
dirs = "=7.0.0"
qrcode = { version = "=0.14.1", default-features = false }
ratatui = "=0.30.2"
serde_json = "=1.0.154"
symphonia = { version = "=0.6.1", features = ["mp3"] }
toml_edit = "=0.25.17"
tui-qrcode = "=0.2.7"
tui-term = "=0.3.4"
ureq = "=3.5.1"
vt100 = "=0.16.2"
