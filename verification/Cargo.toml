[package]
name = "sound_manager"
version = "0.1.0"
edition = "2021"
publish = false

[dependencies]
rusqlite = { version = "*", features = ["bundled"] }
symphonia = "*"
notify-debouncer-full = "*"
crossbeam-channel = "*"
log = "*"
open = "*"
trash = "*"
rodio = "*"
