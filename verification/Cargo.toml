[package]
name = "xiangqi_tui"
version = "0.1.0"
edition = "2021"
publish = false

[dependencies]
anyhow = "1"
arboard = { version = "3", default-features = false }
crossbeam-channel = "0.5"
crossterm = "0.28"
getrandom = "0.3"
parking_lot = "0.12"
ratatui = "0.29"
regex = "1"
rusqlite = { version = "0.32", features = ["bundled"] }
unicode-width = "0.2"
ureq = { version = "2", default-features = false }
urlencoding = "2"
