[package]
name = "gamestream_presets"
version = "0.1.0"
edition = "2021"
publish = false

[dependencies]
clap = "*"
image = "*"
rust-ini = "*"
mslnk = "*"
steam_shortcuts_util = "*"
