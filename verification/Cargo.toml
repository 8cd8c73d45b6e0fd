[package]
name = "subtitle_shift"
version = "0.1.0"
edition = "2021"
publish = false

[dependencies]
clap = { version = "4", features = ["derive"] }
color-eyre = "0.6"
srt_parser = "*"
time = "0.3"
