[package]
name = "codex-silent"
version = "0.2.0"
edition = "2021"
publish = false

[dependencies]
crossterm = "0.29"
libc = "0.2"
ratatui = "0.30"
serde_json = "1"
unicode-width = "0.2"
