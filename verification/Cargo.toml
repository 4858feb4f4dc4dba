[package]
name = "hume-editor"
version = "0.1.0"
edition = "2021"
publish = false

[dependencies]
ropey = { version = "1.6", default-features = false, features = ["simd"] }
regex-cursor = "0.1"
globset = "0.4"
unicode-segmentation = "1"
unicode-width = "0.2"
slotmap = "1"
crossterm = "*"
ratatui = { version = "*", default-features = false }
arboard = { version = "3", default-features = false }
tree-sitter = "*"
