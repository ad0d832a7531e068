[package]
name = "vu_meter"
version = "0.1.0"
edition = "2021"
publish = false

[dependencies]
ringbuf = "0.4"
alsa = "0.9"
clap = { version = "4", features = ["derive"] }
color-eyre = "0.6"
better-panic = "0.3"
crossterm = "0.27"
ratatui = "0.26"
