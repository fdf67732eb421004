[package]
name = "vortex"
version = "0.1.0"
edition = "2021"
publish = false

[dependencies]
rustc-hash = "*"
ratatui = "*"
crossterm = "*"
crossbeam-channel = "*"
bevy_ecs = "*"
bevy_app = "*"
bevy_state = "*"
tracing = "*"
