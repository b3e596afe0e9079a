[package]
name = "toolbox_core"
version = "0.1.0"
edition = "2021"
publish = false

[dependencies]
toml = "0.8"
crossterm = "0.27"
ratatui = "0.26"
