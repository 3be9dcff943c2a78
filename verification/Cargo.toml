[package]
name = "voice_capture"
version = "0.1.0"
edition = "2021"
publish = false

[dependencies]
cpal = "*"
parking_lot = "*"
dirs = "*"
