[package]
name = "webvtt-in-video-stream"
version = "0.1.0"
edition = "2021"
publish = false

[dependencies]
byteorder = "1"
h264-reader = "*"
thiserror = "*"
uuid = "1"
