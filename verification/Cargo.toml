[package]
name = "page_viewer"
version = "0.1.0"
edition = "2021"
publish = false

[dependencies]
itertools = "0.11"
crossterm = "0.27"
ratatui = "0.23"
better-panic = "0.3"
