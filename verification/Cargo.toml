[package]
name = "tunnel_ui"
version = "0.1.0"
edition = "2021"
publish = false

[dependencies]
anyhow = "1"
libc = "0.2"
ratatui = "0.29"
regex = "1"
