[package]
name = "aion_tui"
version = "0.1.0"
edition = "2021"
publish = false

[dependencies]
pulldown-cmark = { version = "0.13", default-features = false }
unicode-width = "0.2"
serde_json = "1"
ratatui = "0.29"
crossterm = "0.28"
