[package]
name = "grid_ui"
version = "0.1.0"
edition = "2021"

[dependencies]
unicode-segmentation = "*"
crossterm = "*"
