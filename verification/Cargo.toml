[package]
name = "terminal_cam"
version = "0.1.0"
edition = "2021"
publish = false

[dependencies]
anyhow = "1"
parking_lot = "0.12"
crossterm = "0.28"
ab_glyph = "0.2"
nokhwa = { version = "0.10", features = ["input-native"] }
