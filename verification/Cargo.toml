[package]
name = "paloma_core"
version = "0.1.0"
edition = "2021"
publish = false

[dependencies]
exmex = "=0.21.0"
nucleo-matcher = "=0.3.1"
uuid = { version = "=1.29.0", features = ["v7"] }
mime_guess = "=2.0.5"
serde_json = "=1.0.154"
regex = "=1.13.1"
wl-clipboard-rs = "=0.9.5"
ignore = "*"
notify = "*"
notify-debouncer-full = "*"
freedesktop-desktop-entry = "*"
open = "*"
